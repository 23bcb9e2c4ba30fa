//! Advice on starting materials.

use vstd::prelude::*;

use crate::arithmetic::{format_fixed, lawful, Arithmetic};
use crate::formula::{compound_of, count_in, Compound, Substance};
use crate::formula_laws::lemma_count_in_some;
use crate::solver::{CalculationError, CalculationFault};
use crate::symbol_laws::{law_elements_are_those_written, written_in};
use crate::text::{ascending, ascending_texts, chars_of, contains, insert_text, is_text, join, join_strings, law_ascending_texts, occurs_at, texts};
use crate::weighing::substances;

verus! {

/// Whether a compound holds an element.
pub open spec fn holds_element<N>(compound: Substance<N>, element: Seq<char>) -> bool {
    count_in(compound.atoms, element) is Some
}

/// Whether any of some compounds holds an element.
pub open spec fn any_holds<N>(compounds: Seq<Substance<N>>, element: Seq<char>) -> bool {
    exists|j: int| 0 <= j < compounds.len() && holds_element(#[trigger] compounds[j], element)
}

/// The elements that occur in organic compounds.
pub open spec fn organic_element(element: Seq<char>) -> bool {
    ||| element == "C"@
    ||| element == "H"@
    ||| element == "O"@
    ||| element == "N"@
    ||| element == "S"@
    ||| element == "P"@
    ||| element == "Cl"@
    ||| element == "Br"@
    ||| element == "I"@
}

/// Whether a compound holds carbon and hydrogen and nothing that an organic compound lacks.
pub open spec fn organic<N>(compound: Substance<N>) -> bool {
    &&& holds_element(compound, "C"@)
    &&& holds_element(compound, "H"@)
    &&& forall|i: int|
        0 <= i < compound.atoms.len() ==> organic_element((#[trigger] compound.atoms[i]).0)
}

fn is_organic_element(element: &str) -> (r: bool)
    ensures
        r == organic_element(element@),
{
    let chars: Vec<char> = chars_of(element);
    is_text(&chars, "C") || is_text(&chars, "H") || is_text(&chars, "O") || is_text(&chars, "N")
        || is_text(&chars, "S") || is_text(&chars, "P") || is_text(&chars, "Cl") || is_text(
        &chars,
        "Br",
    ) || is_text(&chars, "I")
}

/// Whether a compound can be taken for an inorganic material.
pub fn is_inorganic_material_like<N: Copy>(compound: &Compound<N>) -> (r: bool)
    ensures
        r == !organic(compound@),
{
    if compound.count("C").is_none() || compound.count("H").is_none() {
        return true;
    }
    for i in 0..compound.atoms.len()
        invariant
            holds_element(compound@, "C"@),
            holds_element(compound@, "H"@),
            forall|k: int| 0 <= k < i ==> organic_element((#[trigger] compound@.atoms[k]).0),
    {
        assert(compound@.atoms[i as int] == compound.atoms@[i as int]@);
        if !is_organic_element(compound.atoms[i].element.as_str()) {
            return true;
        }
    }
    false
}

/// Materials that bring in an element, for a target with sulfur (`sulfide`) or oxygen (`oxide`).
pub open spec fn sources(element: Seq<char>, sulfide: bool, oxide: bool) -> Seq<Seq<char>> {
    if element == "Li"@ && sulfide {
        seq!["Li2S"@]
    } else if element == "Li"@ && oxide {
        seq!["Li2O"@, "Li2CO3"@]
    } else if element == "Na"@ && sulfide {
        seq!["Na2S"@]
    } else if element == "Na"@ && oxide {
        seq!["Na2O"@, "Na2CO3"@]
    } else if element == "K"@ && sulfide {
        seq!["K2S"@]
    } else if element == "K"@ && oxide {
        seq!["K2O"@, "K2CO3"@]
    } else if element == "P"@ && sulfide {
        seq!["P2S5"@]
    } else if element == "P"@ && oxide {
        seq!["P2O5"@, "NH4H2PO4"@]
    } else if element == "Si"@ && oxide {
        seq!["SiO2"@]
    } else if element == "Ge"@ && sulfide {
        seq!["GeS2"@]
    } else if element == "Ge"@ && oxide {
        seq!["GeO2"@]
    } else if element == "S"@ {
        seq!["硫化物原料"@]
    } else if element == "O"@ {
        seq!["酸化物原料"@]
    } else {
        seq![element + "を含む原料"@]
    }
}

/// The sources of an element that suit a target.
pub open spec fn sources_for<N>(element: Seq<char>, target: Substance<N>) -> Seq<Seq<char>> {
    sources(element, holds_element(target, "S"@), holds_element(target, "O"@))
}

fn one(text: &str) -> (list: Vec<String>)
    ensures
        texts(list@) == seq![text@],
{
    let mut list: Vec<String> = Vec::new();
    list.push(text.to_string());
    assert(texts(list@) == seq![text@]);
    list
}

fn two(first: &str, second: &str) -> (list: Vec<String>)
    ensures
        texts(list@) == seq![first@, second@],
{
    let mut list: Vec<String> = Vec::new();
    list.push(first.to_string());
    list.push(second.to_string());
    assert(texts(list@) == seq![first@, second@]);
    list
}

/// Materials that bring in an element that is missing.
pub fn suggest_sources_for_element<N: Copy>(element: &str, target: &Compound<N>) -> (list: Vec<
    String,
>)
    ensures
        texts(list@) == sources_for(element@, target@),
{
    let has_s: bool = target.count("S").is_some();
    let has_o: bool = target.count("O").is_some();
    let chars: Vec<char> = chars_of(element);
    if is_text(&chars, "Li") && has_s {
        one("Li2S")
    } else if is_text(&chars, "Li") && has_o {
        two("Li2O", "Li2CO3")
    } else if is_text(&chars, "Na") && has_s {
        one("Na2S")
    } else if is_text(&chars, "Na") && has_o {
        two("Na2O", "Na2CO3")
    } else if is_text(&chars, "K") && has_s {
        one("K2S")
    } else if is_text(&chars, "K") && has_o {
        two("K2O", "K2CO3")
    } else if is_text(&chars, "P") && has_s {
        one("P2S5")
    } else if is_text(&chars, "P") && has_o {
        two("P2O5", "NH4H2PO4")
    } else if is_text(&chars, "Si") && has_o {
        one("SiO2")
    } else if is_text(&chars, "Ge") && has_s {
        one("GeS2")
    } else if is_text(&chars, "Ge") && has_o {
        one("GeO2")
    } else if is_text(&chars, "S") {
        one("硫化物原料")
    } else if is_text(&chars, "O") {
        one("酸化物原料")
    } else {
        let mut text: String = element.to_string();
        text.append("を含む原料");
        one(text.as_str())
    }
}

/// The sources of those of the first `n` elements of a target that no precursor holds.
pub open spec fn missing_sources<N>(
    target: Substance<N>,
    precursors: Seq<Substance<N>>,
    n: int,
) -> Seq<Seq<char>>
    decreases n,
{
    if n <= 0 {
        Seq::empty()
    } else {
        let before = missing_sources(target, precursors, n - 1);
        let element = target.atoms[n - 1].0;
        if any_holds(precursors, element) {
            before
        } else {
            before + sources_for(element, target)
        }
    }
}

/// What to change about the precursors of a target, in no particular order.
pub open spec fn fixes<N>(target: Substance<N>, precursors: Seq<Substance<N>>) -> Seq<Seq<char>> {
    let missing = missing_sources(target, precursors, target.atoms.len() as int);
    let no_oxides = if holds_element(target, "S"@) && any_holds(precursors, "O"@) {
        seq!["酸化物ではなく硫化物原料"@]
    } else {
        Seq::empty()
    };
    let no_sulfides = if holds_element(target, "O"@) && any_holds(precursors, "S"@) {
        seq!["硫化物ではなく酸化物原料"@]
    } else {
        Seq::empty()
    };
    missing + no_oxides + no_sulfides
}

/// What to change about the precursors of a target, in order, each once.
pub open spec fn precursor_fixes<N>(target: Substance<N>, precursors: Seq<Substance<N>>) -> Seq<
    Seq<char>,
> {
    ascending_texts(fixes(target, precursors))
}

fn does_any_hold<N: Copy>(compounds: &[Compound<N>], element: &str) -> (r: bool)
    ensures
        r == any_holds(substances(compounds@), element@),
{
    let ghost all = substances(compounds@);
    for j in 0..compounds.len()
        invariant
            all == substances(compounds@),
            forall|k: int| 0 <= k < j ==> !holds_element(#[trigger] all[k], element@),
    {
        assert(all[j as int] == compounds@[j as int]@);
        if compounds[j].count(element).is_some() {
            return true;
        }
    }
    false
}

/// A list in ascending order, each text once.
fn in_order(list: &Vec<String>) -> (sorted: Vec<String>)
    ensures
        texts(sorted@) == ascending_texts(texts(list@)),
{
    let ghost all = texts(list@);
    let mut sorted: Vec<String> = Vec::new();
    assert(texts(sorted@) == ascending_texts(all.take(0)));
    for i in 0..list.len()
        invariant
            all == texts(list@),
            texts(sorted@) == ascending_texts(all.take(i as int)),
    {
        assert(all.take(i + 1).drop_last() == all.take(i as int));
        assert(all.take(i + 1).last() == list@[i as int]@);
        insert_text(&mut sorted, list[i].as_str());
    }
    assert(all.take(all.len() as int) == all);
    sorted
}

fn append_all(list: &mut Vec<String>, more: &Vec<String>)
    ensures
        texts(final(list)@) == texts(old(list)@) + texts(more@),
{
    let ghost start = texts(list@);
    for i in 0..more.len()
        invariant
            texts(list@) == start + texts(more@).take(i as int),
    {
        let ghost before = list@;
        let text: String = more[i].clone();
        list.push(text);
        assert(texts(list@) == texts(before).push(text@));
        assert(texts(more@).take(i + 1) == texts(more@).take(i as int).push(text@));
    }
    assert(texts(more@).take(more@.len() as int) == texts(more@));
}

/// What to change about precursors from which a target cannot be made.
pub fn suggest_precursor_fixes<N: Copy>(target: &Compound<N>, precursors: &[Compound<N>]) -> (list:
    Vec<String>)
    ensures
        texts(list@) == precursor_fixes(target@, substances(precursors@)),
{
    let ghost all = substances(precursors@);
    let mut suggestions: Vec<String> = Vec::new();
    assert(texts(suggestions@) == Seq::<Seq<char>>::empty());
    for i in 0..target.atoms.len()
        invariant
            all == substances(precursors@),
            texts(suggestions@) == missing_sources(target@, all, i as int),
    {
        let element: &str = target.atoms[i].element.as_str();
        assert(target@.atoms[i as int].0 == element@);
        if !does_any_hold(precursors, element) {
            let found: Vec<String> = suggest_sources_for_element(element, target);
            append_all(&mut suggestions, &found);
        }
    }
    if target.count("S").is_some() && does_any_hold(precursors, "O") {
        append_all(&mut suggestions, &one("酸化物ではなく硫化物原料"));
    }
    if target.count("O").is_some() && does_any_hold(precursors, "S") {
        append_all(&mut suggestions, &one("硫化物ではなく酸化物原料"));
    }
    assert(texts(suggestions@) == fixes(target@, all));
    in_order(&suggestions)
}

/// Whether a text is a source of one of the first `n` elements of a target, and no precursor holds
/// that element.
pub open spec fn missing_source<N>(
    target: Substance<N>,
    precursors: Seq<Substance<N>>,
    n: int,
    text: Seq<char>,
) -> bool {
    exists|i: int|
        0 <= i < n && !any_holds(precursors, (#[trigger] target.atoms[i]).0) && sources_for(
            target.atoms[i].0,
            target,
        ).contains(text)
}

/// Whether a text is advice on the precursors of a target: a source of an element that is missing,
/// or a word on the kind of the precursors.
pub open spec fn advised<N>(
    target: Substance<N>,
    precursors: Seq<Substance<N>>,
    text: Seq<char>,
) -> bool {
    ||| missing_source(target, precursors, target.atoms.len() as int, text)
    ||| text == "酸化物ではなく硫化物原料"@ && holds_element(target, "S"@) && any_holds(
        precursors,
        "O"@,
    )
    ||| text == "硫化物ではなく酸化物原料"@ && holds_element(target, "O"@) && any_holds(
        precursors,
        "S"@,
    )
}

proof fn lemma_in_sum(a: Seq<Seq<char>>, b: Seq<Seq<char>>, text: Seq<char>)
    ensures
        (a + b).contains(text) <==> a.contains(text) || b.contains(text),
{
    let both = a + b;
    if both.contains(text) {
        let k = choose|k: int| 0 <= k < both.len() && both[k] == text;
        if k < a.len() {
            assert(a[k] == text);
        } else {
            assert(b[k - a.len()] == text);
        }
    }
    if a.contains(text) {
        let k = choose|k: int| 0 <= k < a.len() && a[k] == text;
        assert(both[k] == text);
    }
    if b.contains(text) {
        let k = choose|k: int| 0 <= k < b.len() && b[k] == text;
        assert(both[a.len() + k] == text);
    }
}

proof fn lemma_missing_sources<N>(
    target: Substance<N>,
    precursors: Seq<Substance<N>>,
    n: int,
    text: Seq<char>,
)
    ensures
        missing_sources(target, precursors, n).contains(text) <==> missing_source(
            target,
            precursors,
            n,
            text,
        ),
    decreases n,
{
    if n > 0 {
        let element = target.atoms[n - 1].0;
        lemma_missing_sources(target, precursors, n - 1, text);
        lemma_in_sum(
            missing_sources(target, precursors, n - 1),
            sources_for(element, target),
            text,
        );
        if missing_source(target, precursors, n - 1, text) {
            let i = choose|i: int|
                0 <= i < n - 1 && !any_holds(precursors, (#[trigger] target.atoms[i]).0)
                    && sources_for(target.atoms[i].0, target).contains(text);
            assert(!any_holds(precursors, target.atoms[i].0));
        }
        if missing_source(target, precursors, n, text) {
            let i = choose|i: int|
                0 <= i < n && !any_holds(precursors, (#[trigger] target.atoms[i]).0)
                    && sources_for(target.atoms[i].0, target).contains(text);
            if i < n - 1 {
                assert(missing_source(target, precursors, n - 1, text));
            }
        }
    }
}

/// Law: the advice is in ascending order, without repetition. It names the sources of each element
/// of the target that no precursor holds, warns of oxides for a target with sulfur and of sulfides
/// for one with oxygen, and names nothing else.
pub proof fn law_advice<N>(
    target: Substance<N>,
    precursors: Seq<Substance<N>>,
    text: Seq<char>,
)
    ensures
        ascending(precursor_fixes(target, precursors)),
        precursor_fixes(target, precursors).contains(text) <==> advised(target, precursors, text),
{
    let missing = missing_sources(target, precursors, target.atoms.len() as int);
    let no_oxides = if holds_element(target, "S"@) && any_holds(precursors, "O"@) {
        seq!["酸化物ではなく硫化物原料"@]
    } else {
        Seq::empty()
    };
    let no_sulfides = if holds_element(target, "O"@) && any_holds(precursors, "S"@) {
        seq!["硫化物ではなく酸化物原料"@]
    } else {
        Seq::empty()
    };
    assert(fixes(target, precursors) == missing + no_oxides + no_sulfides);
    lemma_missing_sources(target, precursors, target.atoms.len() as int, text);
    lemma_in_sum(missing, no_oxides, text);
    lemma_in_sum(missing + no_oxides, no_sulfides, text);
    if no_oxides.len() > 0 {
        assert(no_oxides[0] == "酸化物ではなく硫化物原料"@);
    }
    if no_sulfides.len() > 0 {
        assert(no_sulfides[0] == "硫化物ではなく酸化物原料"@);
    }
    law_ascending_texts(fixes(target, precursors));
}

/// The reason of a refusal in words.
pub open spec fn reason<A: Arithmetic>(fault: CalculationFault<A::Number>) -> Seq<char> {
    match fault {
        CalculationFault::Inconsistent => "元素収支が一致しません。目的組成に必要な元素が不足しているか、余分な元素が原料に含まれています。"@,
        CalculationFault::NotUnique => "原料の組み合わせから一意な秤量値を決められません。原料を減らすか、独立した元素源を追加してください。"@,
        CalculationFault::NegativeAmount { formula, moles } => formula + " が負の使用量 ("@
            + A::fixed_text(moles, 6)
            + " mol) になりました。原料の組み合わせが目的組成に合っていません。"@,
    }
}

/// The reason of a refusal in words, with advice if there is any.
pub open spec fn explanation<A: Arithmetic>(
    fault: CalculationFault<A::Number>,
    target: Substance<A::Number>,
    precursors: Seq<Substance<A::Number>>,
) -> Seq<char> {
    let advice = precursor_fixes(target, precursors);
    if advice.len() == 0 {
        reason::<A>(fault)
    } else {
        reason::<A>(fault) + "\nもしかして "@ + join(advice, ", "@) + " では？"@
    }
}

/// Explains why amounts cannot be computed.
pub fn explain_calculation_error<A: Arithmetic>(
    error: &CalculationError<A::Number>,
    target: &Compound<A::Number>,
    precursors: &[Compound<A::Number>],
) -> (text: String)
    requires
        lawful::<A>(),
    ensures
        text@ == explanation::<A>(error@, target@, substances(precursors@)),
{
    let mut text: String = match error {
        CalculationError::Inconsistent => "元素収支が一致しません。目的組成に必要な元素が不足しているか、余分な元素が原料に含まれています。".to_string(),
        CalculationError::NotUnique => "原料の組み合わせから一意な秤量値を決められません。原料を減らすか、独立した元素源を追加してください。".to_string(),
        CalculationError::NegativeAmount { formula, moles } => {
            let mut base: String = formula.clone();
            base.append(" が負の使用量 (");
            base.append(format_fixed::<A>(*moles, 6).as_str());
            base.append(" mol) になりました。原料の組み合わせが目的組成に合っていません。");
            base
        },
    };
    let suggestions: Vec<String> = suggest_precursor_fixes(target, precursors);
    assert(texts(suggestions@).len() == suggestions@.len());
    if suggestions.len() > 0 {
        text.append("\nもしかして ");
        text.append(join_strings(&suggestions, ", ").as_str());
        text.append(" では？");
    }
    text
}

/// Law: a formula is organic if, and only if, carbon and hydrogen are written in it and nothing but
/// the elements of organic compounds is.
pub proof fn law_organic_by_its_symbols<A: Arithmetic>(text: Seq<char>)
    ensures
        compound_of::<A>(text) matches Ok(compound) ==> (organic(compound) <==> {
            &&& written_in(compound.formula, "C"@)
            &&& written_in(compound.formula, "H"@)
            &&& forall|element: Seq<char>| #[trigger]
                written_in(compound.formula, element) ==> seq![
                    "C"@,
                    "H"@,
                    "O"@,
                    "N"@,
                    "S"@,
                    "P"@,
                    "Cl"@,
                    "Br"@,
                    "I"@,
                ].contains(element)
        }),
{
    let list = seq!["C"@, "H"@, "O"@, "N"@, "S"@, "P"@, "Cl"@, "Br"@, "I"@];
    assert(list[0] == "C"@ && list[1] == "H"@ && list[2] == "O"@ && list[3] == "N"@ && list[4]
        == "S"@ && list[5] == "P"@ && list[6] == "Cl"@ && list[7] == "Br"@ && list[8] == "I"@);
    if let Ok(compound) = compound_of::<A>(text) {
        law_elements_are_those_written::<A>(text, "C"@);
        law_elements_are_those_written::<A>(text, "H"@);
        if organic(compound) {
            assert forall|element: Seq<char>| #[trigger]
                written_in(compound.formula, element) implies list.contains(element) by {
                law_elements_are_those_written::<A>(text, element);
                lemma_count_in_some(compound.atoms, element);
                let i = choose|i: int|
                    0 <= i < compound.atoms.len() && (#[trigger] compound.atoms[i]).0 == element;
                assert(organic_element(compound.atoms[i].0));
            }
        } else if written_in(compound.formula, "C"@) && written_in(compound.formula, "H"@) {
            let i = choose|i: int|
                0 <= i < compound.atoms.len() && !organic_element(
                    (#[trigger] compound.atoms[i]).0,
                );
            let element = compound.atoms[i].0;
            law_elements_are_those_written::<A>(text, element);
            lemma_count_in_some(compound.atoms, element);
            assert(written_in(compound.formula, element));
            assert(!list.contains(element));
        }
    }
}

/// Law: an explanation starts with the reason of the refusal. Where there is advice, all of it
/// follows, in order; where there is none, nothing follows.
pub proof fn law_explanation_gives_all_advice<A: Arithmetic>(
    fault: CalculationFault<A::Number>,
    target: Substance<A::Number>,
    precursors: Seq<Substance<A::Number>>,
)
    ensures
        ({
            let advice = precursor_fixes(target, precursors);
            let why = match fault {
                CalculationFault::Inconsistent => "元素収支が一致しません。目的組成に必要な元素が不足しているか、余分な元素が原料に含まれています。"@,
                CalculationFault::NotUnique => "原料の組み合わせから一意な秤量値を決められません。原料を減らすか、独立した元素源を追加してください。"@,
                CalculationFault::NegativeAmount { formula, moles } => formula
                    + " が負の使用量 ("@ + A::fixed_text(moles, 6)
                    + " mol) になりました。原料の組み合わせが目的組成に合っていません。"@,
            };
            &&& advice.len() == 0 ==> explanation::<A>(fault, target, precursors) == why
            &&& advice.len() > 0 ==> explanation::<A>(fault, target, precursors) == why
                + "\nもしかして "@ + join(advice, ", "@) + " では？"@
        }),
{
}

/// Law: what is advised are the sources of the elements of the target that are in none of the
/// precursors; that a target with sulfur wants sulfides, if a precursor holds oxygen; and that one
/// with oxygen wants oxides, if a precursor holds sulfur. Nothing else is.
pub proof fn law_missing_elements_are_advised<N>(
    target: Substance<N>,
    precursors: Seq<Substance<N>>,
    text: Seq<char>,
)
    ensures
        ({
            let sulfur = count_in(target.atoms, "S"@) is Some;
            let oxygen = count_in(target.atoms, "O"@) is Some;
            precursor_fixes(target, precursors).contains(text) <==> {
                ||| exists|i: int|
                    {
                        &&& 0 <= i < target.atoms.len()
                        &&& forall|j: int|
                            0 <= j < precursors.len() ==> count_in(
                                (#[trigger] precursors[j]).atoms,
                                target.atoms[i].0,
                            ) is None
                        &&& sources((#[trigger] target.atoms[i]).0, sulfur, oxygen).contains(text)
                    }
                ||| text == "酸化物ではなく硫化物原料"@ && sulfur && exists|j: int|
                    0 <= j < precursors.len() && count_in(
                        (#[trigger] precursors[j]).atoms,
                        "O"@,
                    ) is Some
                ||| text == "硫化物ではなく酸化物原料"@ && oxygen && exists|j: int|
                    0 <= j < precursors.len() && count_in(
                        (#[trigger] precursors[j]).atoms,
                        "S"@,
                    ) is Some
            }
        }),
{
    law_advice(target, precursors, text);
    let sulfur = count_in(target.atoms, "S"@) is Some;
    let oxygen = count_in(target.atoms, "O"@) is Some;
    let n = target.atoms.len() as int;
    assert forall|element: Seq<char>| #[trigger] any_holds(precursors, element) <==> exists|j: int|
        0 <= j < precursors.len() && count_in((#[trigger] precursors[j]).atoms, element) is Some by {
        if any_holds(precursors, element) {
            let j = choose|j: int|
                0 <= j < precursors.len() && holds_element(#[trigger] precursors[j], element);
            assert(count_in(precursors[j].atoms, element) is Some);
        }
        if exists|j: int|
            0 <= j < precursors.len() && count_in(
                (#[trigger] precursors[j]).atoms,
                element,
            ) is Some {
            let j = choose|j: int|
                0 <= j < precursors.len() && count_in(
                    (#[trigger] precursors[j]).atoms,
                    element,
                ) is Some;
            assert(holds_element(precursors[j], element));
        }
    }
    if missing_source(target, precursors, n, text) {
        let i = choose|i: int|
            0 <= i < n && !any_holds(precursors, (#[trigger] target.atoms[i]).0) && sources_for(
                target.atoms[i].0,
                target,
            ).contains(text);
        assert(!any_holds(precursors, target.atoms[i].0));
        assert(sources(target.atoms[i].0, sulfur, oxygen).contains(text));
        assert forall|j: int| 0 <= j < precursors.len() implies count_in(
            (#[trigger] precursors[j]).atoms,
            target.atoms[i].0,
        ) is None by {}
    }
    assert forall|i: int|
        {
            &&& 0 <= i < n
            &&& forall|j: int|
                0 <= j < precursors.len() ==> count_in(
                    (#[trigger] precursors[j]).atoms,
                    target.atoms[i].0,
                ) is None
            &&& sources((#[trigger] target.atoms[i]).0, sulfur, oxygen).contains(text)
        } implies missing_source(target, precursors, n, text) by {
        assert(!any_holds(precursors, target.atoms[i].0));
        assert(sources_for(target.atoms[i].0, target).contains(text));
    }
}

/// Law: where a target holds sulfur, the sources of an element are its sulfides, if any are known,
/// whether the target holds oxygen or not; else, where it holds oxygen, they are its oxygen
/// compounds, if any are known. Each source that is a formula names the element, and sulfur or
/// oxygen with it. For sulfur and oxygen themselves a kind of material is named, and for any other
/// element a material that holds it.
pub proof fn law_sources(element: Seq<char>, sulfide: bool, oxide: bool, i: int)
    ensures
        ({
            let list = sources(element, sulfide, oxide);
            let with_sulfide = seq!["Li"@, "Na"@, "K"@, "P"@, "Ge"@].contains(element);
            let with_oxide = seq!["Li"@, "Na"@, "K"@, "P"@, "Si"@, "Ge"@].contains(element);
            &&& list.len() > 0
            &&& sulfide && with_sulfide ==> list == sources(element, true, false)
            &&& sulfide && with_sulfide && 0 <= i < list.len() ==> contains(list[i], element)
                && list[i].contains('S')
            &&& !(sulfide && with_sulfide) && oxide && with_oxide ==> list == sources(
                element,
                false,
                true,
            )
            &&& !(sulfide && with_sulfide) && oxide && with_oxide && 0 <= i < list.len()
                ==> contains(list[i], element) && list[i].contains('O')
            &&& !(sulfide && with_sulfide) && !(oxide && with_oxide) ==> list == (if element
                == "S"@ {
                seq!["硫化物原料"@]
            } else if element == "O"@ {
                seq!["酸化物原料"@]
            } else {
                seq![element + "を含む原料"@]
            })
        }),
{
    reveal_strlit("Li");
    reveal_strlit("Na");
    reveal_strlit("K");
    reveal_strlit("P");
    reveal_strlit("Si");
    reveal_strlit("Ge");
    reveal_strlit("S");
    reveal_strlit("O");
    let sulfides = seq!["Li"@, "Na"@, "K"@, "P"@, "Ge"@];
    let oxides = seq!["Li"@, "Na"@, "K"@, "P"@, "Si"@, "Ge"@];
    assert(sulfides[0] == "Li"@ && sulfides[1] == "Na"@ && sulfides[2] == "K"@ && sulfides[3]
        == "P"@ && sulfides[4] == "Ge"@);
    assert(oxides[0] == "Li"@ && oxides[1] == "Na"@ && oxides[2] == "K"@ && oxides[3] == "P"@
        && oxides[4] == "Si"@ && oxides[5] == "Ge"@);
    assert("Li"@[0] == 'L' && "Na"@[0] == 'N' && "K"@[0] == 'K' && "P"@[0] == 'P' && "Ge"@[0]
        == 'G');
    lemma_source_formulas();
}

/// The formulas among the sources.
proof fn lemma_source_formulas()
    ensures
        contains("Li2S"@, "Li"@) && "Li2S"@.contains('S'),
        contains("Na2S"@, "Na"@) && "Na2S"@.contains('S'),
        contains("K2S"@, "K"@) && "K2S"@.contains('S'),
        contains("P2S5"@, "P"@) && "P2S5"@.contains('S'),
        contains("GeS2"@, "Ge"@) && "GeS2"@.contains('S'),
        contains("Li2O"@, "Li"@) && "Li2O"@.contains('O'),
        contains("Li2CO3"@, "Li"@) && "Li2CO3"@.contains('O'),
        contains("Na2O"@, "Na"@) && "Na2O"@.contains('O'),
        contains("Na2CO3"@, "Na"@) && "Na2CO3"@.contains('O'),
        contains("K2O"@, "K"@) && "K2O"@.contains('O'),
        contains("K2CO3"@, "K"@) && "K2CO3"@.contains('O'),
        contains("P2O5"@, "P"@) && "P2O5"@.contains('O'),
        contains("NH4H2PO4"@, "P"@) && "NH4H2PO4"@.contains('O'),
        contains("SiO2"@, "Si"@) && "SiO2"@.contains('O'),
        contains("GeO2"@, "Ge"@) && "GeO2"@.contains('O'),
{
    reveal_strlit("Li");
    reveal_strlit("Na");
    reveal_strlit("K");
    reveal_strlit("P");
    reveal_strlit("Si");
    reveal_strlit("Ge");
    reveal_strlit("Li2S");
    reveal_strlit("Na2S");
    reveal_strlit("K2S");
    reveal_strlit("P2S5");
    reveal_strlit("GeS2");
    reveal_strlit("Li2O");
    reveal_strlit("Li2CO3");
    reveal_strlit("Na2O");
    reveal_strlit("Na2CO3");
    reveal_strlit("K2O");
    reveal_strlit("K2CO3");
    reveal_strlit("P2O5");
    reveal_strlit("NH4H2PO4");
    reveal_strlit("SiO2");
    reveal_strlit("GeO2");
    lemma_names_both("Li2S"@, "Li"@, 0, 3, 'S');
    lemma_names_both("Na2S"@, "Na"@, 0, 3, 'S');
    lemma_names_both("K2S"@, "K"@, 0, 2, 'S');
    lemma_names_both("P2S5"@, "P"@, 0, 2, 'S');
    lemma_names_both("GeS2"@, "Ge"@, 0, 2, 'S');
    lemma_names_both("Li2O"@, "Li"@, 0, 3, 'O');
    lemma_names_both("Li2CO3"@, "Li"@, 0, 4, 'O');
    lemma_names_both("Na2O"@, "Na"@, 0, 3, 'O');
    lemma_names_both("Na2CO3"@, "Na"@, 0, 4, 'O');
    lemma_names_both("K2O"@, "K"@, 0, 2, 'O');
    lemma_names_both("K2CO3"@, "K"@, 0, 3, 'O');
    lemma_names_both("P2O5"@, "P"@, 0, 2, 'O');
    lemma_names_both("NH4H2PO4"@, "P"@, 5, 6, 'O');
    lemma_names_both("SiO2"@, "Si"@, 0, 2, 'O');
    lemma_names_both("GeO2"@, "Ge"@, 0, 2, 'O');
}

proof fn lemma_names_both(text: Seq<char>, element: Seq<char>, at: int, other: int, c: char)
    requires
        0 <= at,
        at + element.len() <= text.len(),
        forall|k: int| 0 <= k < element.len() ==> #[trigger] element[k] == text[at + k],
        0 <= other < text.len(),
        text[other] == c,
    ensures
        contains(text, element) && text.contains(c),
{
    assert(text.subrange(at, at + element.len()) == element);
    assert(occurs_at(text, element, at));
}

} // verus!
