//! What holds of every formula and of the compound that it denotes.

use vstd::prelude::*;

use crate::arithmetic::{Arithmetic, Machine, Numerals};
use crate::elements::weight_of;
use crate::formula::{closing_bracket, closing_of, compound_of, count_at, count_in, count_or_zero, group_at, mass_of, opening_bracket, ordered, symbol_end, with_count, with_group};
use crate::text::{ascii_uppercase, lemma_precedes_irreflexive, lemma_precedes_total, lemma_precedes_transitive, precedes, trim, trim_end, trim_start, white_space};

verus! {

/// Whether each element has a weight.
pub open spec fn all_known<M: Numerals>(atoms: Seq<(Seq<char>, M::Number)>) -> bool {
    forall|i: int| 0 <= i < atoms.len() ==> weight_of::<M>((#[trigger] atoms[i]).0) is Some
}

pub proof fn lemma_count_in_push<N>(
    atoms: Seq<(Seq<char>, N)>,
    entry: (Seq<char>, N),
    element: Seq<char>,
)
    ensures
        count_in(atoms.push(entry), element) == match count_in(atoms, element) {
            Some(count) => Some(count),
            None => if entry.0 == element {
                Some(entry.1)
            } else {
                None
            },
        },
    decreases atoms.len(),
{
    let longer = atoms.push(entry);
    if atoms.len() == 0 {
        assert(longer.drop_first() == Seq::<(Seq<char>, N)>::empty());
        assert(longer[0] == entry);
    } else {
        assert(longer[0] == atoms[0]);
        assert(longer.drop_first() == atoms.drop_first().push(entry));
        lemma_count_in_push(atoms.drop_first(), entry, element);
    }
}

pub proof fn lemma_count_in_some<N>(atoms: Seq<(Seq<char>, N)>, element: Seq<char>)
    ensures
        count_in(atoms, element) is Some <==> exists|i: int|
            0 <= i < atoms.len() && (#[trigger] atoms[i]).0 == element,
    decreases atoms.len(),
{
    if atoms.len() > 0 {
        let rest = atoms.drop_first();
        lemma_count_in_some(rest, element);
        if atoms[0].0 != element {
            if exists|i: int| 0 <= i < rest.len() && (#[trigger] rest[i]).0 == element {
                let i = choose|i: int| 0 <= i < rest.len() && (#[trigger] rest[i]).0 == element;
                assert(atoms[i + 1].0 == element);
            }
            if exists|i: int| 0 <= i < atoms.len() && (#[trigger] atoms[i]).0 == element {
                let i = choose|i: int| 0 <= i < atoms.len() && (#[trigger] atoms[i]).0 == element;
                assert(rest[i - 1].0 == element);
            }
        }
    }
}

/// Law: adding a count for an element keeps the elements in order, each once; adds to the count of
/// that element, from zero if it was missing; and leaves the counts of all other elements.
pub proof fn law_with_count<M: Numerals>(
    atoms: Seq<(Seq<char>, M::Number)>,
    element: Seq<char>,
    count: M::Number,
    other: Seq<char>,
)
    requires
        ordered(atoms),
    ensures
        ordered(with_count::<M>(atoms, element, count)),
        count_in(with_count::<M>(atoms, element, count), other) == (if other == element {
            Some(M::sum(count_or_zero::<M>(atoms, element), count))
        } else {
            count_in(atoms, other)
        }),
    decreases atoms.len(),
{
    let result = with_count::<M>(atoms, element, count);
    if atoms.len() == 0 {
        let fresh = (element, M::sum(M::integer(0), count));
        assert(result == atoms.push(fresh));
        lemma_count_in_push(atoms, fresh, other);
    } else {
        let front = atoms.drop_last();
        let last = atoms.last();
        assert(atoms == front.push(last));
        lemma_count_in_push(front, last, other);
        lemma_count_in_push(front, last, element);
        if precedes(last.0, element) {
            let fresh = (element, M::sum(M::integer(0), count));
            lemma_count_in_push(atoms, fresh, other);
            assert forall|i: int| 0 <= i < atoms.len() implies precedes(
                (#[trigger] atoms[i]).0,
                element,
            ) by {
                if i < atoms.len() - 1 {
                    lemma_precedes_transitive(atoms[i].0, last.0, element);
                }
            }
            lemma_count_in_some(atoms, element);
            if count_in(atoms, element) is Some {
                let i = choose|i: int| 0 <= i < atoms.len() && (#[trigger] atoms[i]).0 == element;
                lemma_precedes_irreflexive(element);
            }
        } else if last.0 == element {
            lemma_count_in_push(front, (element, M::sum(last.1, count)), other);
            lemma_count_in_some(front, element);
            if count_in(front, element) is Some {
                let i = choose|i: int| 0 <= i < front.len() && (#[trigger] front[i]).0 == element;
                assert(precedes(atoms[i].0, atoms[atoms.len() - 1].0));
                lemma_precedes_irreflexive(element);
            }
            assert forall|i: int, j: int| 0 <= i < j < result.len() implies precedes(
                (#[trigger] result[i]).0,
                (#[trigger] result[j]).0,
            ) by {
                assert(precedes(atoms[i].0, atoms[j].0));
            }
        } else {
            assert(ordered(front));
            law_with_count::<M>(front, element, count, other);
            lemma_precedes_total(last.0, element);
            let placed = with_count::<M>(front, element, count);
            lemma_count_in_push(placed, last, other);
            assert forall|i: int, j: int| 0 <= i < j < result.len() implies precedes(
                (#[trigger] result[i]).0,
                (#[trigger] result[j]).0,
            ) by {
                if j == placed.len() {
                    let name = placed[i].0;
                    law_with_count::<M>(front, element, count, name);
                    lemma_count_in_some(placed, name);
                    assert(placed[i].0 == name);
                    assert(count_in(placed, name) is Some);
                    if name != element {
                        lemma_count_in_some(front, name);
                        let k = choose|k: int|
                            0 <= k < front.len() && (#[trigger] front[k]).0 == name;
                        assert(precedes(atoms[k].0, atoms[atoms.len() - 1].0));
                    }
                }
            }
        }
    }
}

/// Law: adding a group keeps the elements in order, each once, and adds to the count of each
/// element of the group its count there times the multiplier.
pub proof fn law_with_group<M: Numerals>(
    atoms: Seq<(Seq<char>, M::Number)>,
    group: Seq<(Seq<char>, M::Number)>,
    multiplier: M::Number,
    element: Seq<char>,
)
    requires
        ordered(atoms),
        ordered(group),
    ensures
        ordered(with_group::<M>(atoms, group, multiplier)),
        count_in(with_group::<M>(atoms, group, multiplier), element) == match count_in(
            group,
            element,
        ) {
            Some(count) => Some(
                M::sum(count_or_zero::<M>(atoms, element), M::product(count, multiplier)),
            ),
            None => count_in(atoms, element),
        },
    decreases group.len(),
{
    if group.len() > 0 {
        let front = group.drop_last();
        let last = group.last();
        assert(group == front.push(last));
        law_with_group::<M>(atoms, front, multiplier, element);
        law_with_count::<M>(
            with_group::<M>(atoms, front, multiplier),
            last.0,
            M::product(last.1, multiplier),
            element,
        );
        lemma_count_in_push(front, last, element);
        lemma_count_in_some(front, element);
        if last.0 == element && count_in(front, element) is Some {
            let i = choose|i: int| 0 <= i < front.len() && (#[trigger] front[i]).0 == element;
            assert(precedes(group[i].0, group[group.len() - 1].0));
            lemma_precedes_irreflexive(element);
        }
    }
}

proof fn lemma_with_count_known<M: Numerals>(
    atoms: Seq<(Seq<char>, M::Number)>,
    element: Seq<char>,
    count: M::Number,
)
    requires
        all_known::<M>(atoms),
        weight_of::<M>(element) is Some,
    ensures
        all_known::<M>(with_count::<M>(atoms, element, count)),
        with_count::<M>(atoms, element, count).len() > 0,
    decreases atoms.len(),
{
    if atoms.len() > 0 && !precedes(atoms.last().0, element) && atoms.last().0 != element {
        lemma_with_count_known::<M>(atoms.drop_last(), element, count);
    }
}

proof fn lemma_with_group_known<M: Numerals>(
    atoms: Seq<(Seq<char>, M::Number)>,
    group: Seq<(Seq<char>, M::Number)>,
    multiplier: M::Number,
)
    requires
        all_known::<M>(atoms),
        all_known::<M>(group),
    ensures
        all_known::<M>(with_group::<M>(atoms, group, multiplier)),
    decreases group.len(),
{
    if group.len() > 0 {
        lemma_with_group_known::<M>(atoms, group.drop_last(), multiplier);
        lemma_with_count_known::<M>(
            with_group::<M>(atoms, group.drop_last(), multiplier),
            group.last().0,
            M::product(group.last().1, multiplier),
        );
    }
}

pub proof fn lemma_group_atoms<A: Arithmetic>(
    chars: Seq<char>,
    i: int,
    atoms: Seq<(Seq<char>, A::Number)>,
    stop: Option<char>,
)
    requires
        0 <= i,
        ordered(atoms),
        all_known::<Machine<A>>(atoms),
    ensures
        group_at::<A>(chars, i, atoms, stop) matches Ok((found, _)) ==> ordered(found)
            && all_known::<Machine<A>>(found),
    decreases chars.len() - i,
{
    if i < chars.len() {
        if opening_bracket(chars[i]) {
            let close = Some(closing_of(chars[i]));
            lemma_group_atoms::<A>(chars, i + 1, Seq::empty(), close);
            if let Ok((group, end)) = group_at::<A>(chars, i + 1, Seq::empty(), close) {
                if let Ok((multiplier, next)) = count_at::<A>(chars, end) {
                    if i < next <= chars.len() {
                        law_with_group::<Machine<A>>(atoms, group, multiplier, Seq::empty());
                        lemma_with_group_known::<Machine<A>>(atoms, group, multiplier);
                        lemma_group_atoms::<A>(
                            chars,
                            next,
                            with_group::<Machine<A>>(atoms, group, multiplier),
                            stop,
                        );
                    }
                }
            }
        } else if closing_bracket(chars[i]) {
        } else if ascii_uppercase(chars[i]) {
            let symbol = chars.subrange(i, symbol_end(chars, i));
            if weight_of::<Machine<A>>(symbol) is Some {
                if let Ok((count, next)) = count_at::<A>(chars, symbol_end(chars, i)) {
                    if i < next <= chars.len() {
                        law_with_count::<Machine<A>>(atoms, symbol, count, Seq::empty());
                        lemma_with_count_known::<Machine<A>>(atoms, symbol, count);
                        lemma_group_atoms::<A>(
                            chars,
                            next,
                            with_count::<Machine<A>>(atoms, symbol, count),
                            stop,
                        );
                    }
                }
            }
        }
    }
}

proof fn lemma_trim_end_shape(text: Seq<char>, drop: spec_fn(char) -> bool)
    ensures
        trim_end(text, drop).len() <= text.len(),
        trim_end(text, drop) == text.take(trim_end(text, drop).len() as int),
        trim_end(text, drop).len() > 0 ==> !drop(trim_end(text, drop).last()),
    decreases text.len(),
{
    if text.len() > 0 && drop(text.last()) {
        lemma_trim_end_shape(text.drop_last(), drop);
    } else {
        assert(text.take(text.len() as int) == text);
    }
}

proof fn lemma_trim_start_shape(text: Seq<char>, drop: spec_fn(char) -> bool)
    ensures
        trim_start(text, drop).len() > 0 ==> !drop(trim_start(text, drop)[0]),
    decreases text.len(),
{
    if text.len() > 0 && drop(text[0]) {
        lemma_trim_start_shape(text.drop_first(), drop);
    }
}

/// Trimming twice trims no more than trimming once.
pub proof fn lemma_trim_twice(text: Seq<char>)
    ensures
        trim(trim(text)) == trim(text),
{
    let drop = |c: char| white_space(c);
    let rest = trim_start(text, drop);
    lemma_trim_start_shape(text, drop);
    lemma_trim_end_shape(rest, drop);
    let once = trim_end(rest, drop);
    assert(trim(text) == once);
    assert(trim_start(once, drop) == once);
    assert(trim_end(once, drop) == once);
}

/// Law: a compound read from a text has the trimmed text as its formula, holds at least one
/// element, holds only elements with a known weight, and holds them in order, each once; its
/// molar mass is the sum of the weights of its atoms. Its formula denotes the same compound.
pub proof fn law_compound<A: Arithmetic>(text: Seq<char>)
    ensures
        compound_of::<A>(text) matches Ok(compound) ==> {
            &&& compound.formula == trim(text)
            &&& compound.formula.len() > 0
            &&& compound.atoms.len() > 0
            &&& ordered(compound.atoms)
            &&& all_known::<Machine<A>>(compound.atoms)
            &&& mass_of::<Machine<A>>(compound.atoms) == Ok::<
                A::Number,
                crate::formula::FormulaFault,
            >(compound.molar_mass)
        },
        compound_of::<A>(trim(text)) == compound_of::<A>(text),
{
    lemma_group_atoms::<A>(trim(text), 0, Seq::empty(), None);
    lemma_trim_twice(text);
}

/// Law: a group of known elements always has a molar mass.
pub proof fn law_known_elements_have_mass<M: Numerals>(atoms: Seq<(Seq<char>, M::Number)>)
    requires
        all_known::<M>(atoms),
    ensures
        mass_of::<M>(atoms) is Ok,
    decreases atoms.len(),
{
    if atoms.len() > 0 {
        law_known_elements_have_mass::<M>(atoms.drop_last());
        assert(weight_of::<M>(atoms[atoms.len() - 1].0) is Some);
    }
}

} // verus!
