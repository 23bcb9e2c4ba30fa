//! What a bracket with a count does to a formula.

use vstd::prelude::*;

use crate::arithmetic::{Arithmetic, Machine, Numerals};
use crate::elements::weight_of;
use crate::formula::{closing_bracket, closing_of, compound_of, count_at, count_in, decimal_at, decimal_end, decimal_point_at, digits_end, group_at, hydrate_separator, lemma_count_bounds, lemma_digits_end, lemma_group_bounds, opening_bracket, ordered, symbol_end, with_count, with_group, FormulaFault};
use crate::formula_laws::{all_known, law_compound, law_known_elements_have_mass, law_with_group};
use crate::text::{ascii_digit, ascii_lowercase, ascii_uppercase, precedes, trim, trim_end, trim_start, white_space};

verus! {

/// Whether a text is a decimal number and nothing else.
pub open spec fn decimal_literal(text: Seq<char>) -> bool {
    text.len() > 0 && decimal_end(text, 0) == Some(text.len() as int)
}

/// Whether a text denotes a number that can be a count: finite and more than zero.
pub open spec fn denotes_count<A: Arithmetic>(text: Seq<char>, value: A::Number) -> bool {
    &&& A::numeral(text) == Some(value)
    &&& A::finite(value)
    &&& !A::at_most(value, A::integer(0))
}

/// Whether adding a number above zero to zero yields that number.
pub open spec fn zero_is_neutral<A: Arithmetic>() -> bool {
    forall|number: A::Number|
        A::below(A::integer(0), number) ==> #[trigger] A::sum(A::integer(0), number) == number
}

/// A formula in brackets, with a count.
pub open spec fn bracketed(open: char, formula: Seq<char>, count: Seq<char>) -> Seq<char> {
    seq![open] + formula + seq![closing_of(open)] + count
}

/// Whether `part` stands in `text` from index `at` on.
pub open spec fn embedded(part: Seq<char>, text: Seq<char>, at: int) -> bool {
    &&& 0 <= at
    &&& at + part.len() <= text.len()
    &&& forall|k: int| 0 <= k < part.len() ==> #[trigger] part[k] == text[at + k]
}

/// Whether what follows an embedded part cannot continue a decimal number at its end: it is the end
/// of the text, or neither a digit nor a point.
pub open spec fn number_ends(part: Seq<char>, text: Seq<char>, at: int) -> bool {
    at + part.len() < text.len() ==> !ascii_digit(text[at + part.len()]) && text[at + part.len()]
        != '.'
}

/// Whether what follows an embedded part cannot be read as its continuation: it is the end of the
/// text, or no part of a symbol or count that was begun.
pub open spec fn closed_off(part: Seq<char>, text: Seq<char>, at: int) -> bool {
    at + part.len() < text.len() ==> {
        let next = text[at + part.len()];
        !ascii_digit(next) && next != '.' && next != '/' && !ascii_lowercase(next)
    }
}

proof fn lemma_digits_embedded(part: Seq<char>, text: Seq<char>, at: int, i: int)
    requires
        embedded(part, text, at),
        number_ends(part, text, at),
        0 <= i <= part.len(),
    ensures
        digits_end(text, at + i) == at + digits_end(part, i),
        decimal_point_at(text, at + i) == decimal_point_at(part, i),
    decreases part.len() - i,
{
    if i < part.len() {
        assert(part[i] == text[at + i]);
        if i + 1 < part.len() {
            assert(part[i + 1] == text[at + (i + 1)]);
        }
        if ascii_digit(part[i]) {
            lemma_digits_embedded(part, text, at, i + 1);
        }
    }
}

pub proof fn lemma_decimal_embedded<A: Arithmetic>(
    part: Seq<char>,
    text: Seq<char>,
    at: int,
    i: int,
)
    requires
        embedded(part, text, at),
        number_ends(part, text, at),
        0 <= i <= part.len(),
    ensures
        decimal_at::<A>(text, at + i) == match decimal_at::<A>(part, i) {
            Ok((value, end)) => Ok((value, at + end)),
            Err(fault) => Err(fault),
        },
        decimal_at::<A>(part, i) matches Ok((_, end)) ==> i <= end <= part.len(),
{
    lemma_digits_end(part, i);
    lemma_digits_embedded(part, text, at, i);
    let whole = digits_end(part, i);
    lemma_digits_embedded(part, text, at, whole);
    if whole < part.len() {
        lemma_digits_end(part, whole + 1);
        lemma_digits_embedded(part, text, at, whole + 1);
        lemma_digits_embedded(part, text, at, digits_end(part, whole + 1));
    }
    if let Some(end) = decimal_end(part, i) {
        assert(text.subrange(at + i, at + end) == part.subrange(i, end));
    }
}

pub proof fn lemma_count_embedded<A: Arithmetic>(part: Seq<char>, text: Seq<char>, at: int, i: int)
    requires
        embedded(part, text, at),
        closed_off(part, text, at),
        0 <= i <= part.len(),
    ensures
        count_at::<A>(text, at + i) == match count_at::<A>(part, i) {
            Ok((value, end)) => Ok((value, at + end)),
            Err(fault) => Err(fault),
        },
{
    lemma_decimal_embedded::<A>(part, text, at, i);
    if let Ok((Some(_), end)) = decimal_at::<A>(part, i) {
        if end < part.len() {
            assert(part[end] == text[at + end]);
            lemma_decimal_embedded::<A>(part, text, at, end + 1);
        }
    }
}

/// Where the closing bracket ends the reading of a group in a larger text, or the end of the text
/// did before.
pub open spec fn outer_stop(stop: Option<char>, close: char) -> Option<char> {
    match stop {
        Some(inner) => Some(inner),
        None => Some(close),
    }
}

/// What is read from a formula is read from the same formula in front of a closing bracket.
pub proof fn lemma_group_embedded<A: Arithmetic>(
    part: Seq<char>,
    text: Seq<char>,
    at: int,
    i: int,
    atoms: Seq<(Seq<char>, A::Number)>,
    stop: Option<char>,
)
    requires
        embedded(part, text, at),
        at + part.len() < text.len(),
        closing_bracket(text[at + part.len()]),
        0 <= i <= part.len(),
    ensures
        group_at::<A>(part, i, atoms, stop) matches Ok((found, end)) ==> group_at::<A>(
            text,
            at + i,
            atoms,
            outer_stop(stop, text[at + part.len()]),
        ) == Ok::<(Seq<(Seq<char>, A::Number)>, int), FormulaFault>(
            (
                found,
                if stop is Some {
                    at + end
                } else {
                    at + part.len() + 1
                },
            ),
        ),
    decreases part.len() - i,
{
    let close = text[at + part.len()];
    if i < part.len() && group_at::<A>(part, i, atoms, stop) is Ok {
        let c = part[i];
        assert(c == text[at + i]);
        if opening_bracket(c) {
            let inner = Some(closing_of(c));
            lemma_group_embedded::<A>(part, text, at, i + 1, Seq::empty(), inner);
            lemma_group_bounds::<A>(part, i + 1, Seq::empty(), inner);
            if let Ok((group, behind)) = group_at::<A>(part, i + 1, Seq::empty(), inner) {
                lemma_count_embedded::<A>(part, text, at, behind);
                lemma_count_bounds::<A>(part, behind);
                if let Ok((multiplier, next)) = count_at::<A>(part, behind) {
                    lemma_group_embedded::<A>(
                        part,
                        text,
                        at,
                        next,
                        with_group::<Machine<A>>(atoms, group, multiplier),
                        stop,
                    );
                }
            }
        } else if closing_bracket(c) {
        } else if ascii_uppercase(c) {
            let j = symbol_end(part, i);
            if i + 1 < part.len() {
                assert(part[i + 1] == text[at + (i + 1)]);
            }
            assert(symbol_end(text, at + i) == at + j);
            let symbol = part.subrange(i, j);
            assert(text.subrange(at + i, at + j) == symbol);
            if weight_of::<Machine<A>>(symbol) is Some {
                lemma_count_embedded::<A>(part, text, at, j);
                lemma_count_bounds::<A>(part, j);
                if let Ok((count, next)) = count_at::<A>(part, j) {
                    lemma_group_embedded::<A>(
                        part,
                        text,
                        at,
                        next,
                        with_count::<Machine<A>>(atoms, symbol, count),
                        stop,
                    );
                }
            }
        }
    }
}

/// The element counts, each times a multiplier and added to nothing.
pub open spec fn multiplied_counts<M: Numerals>(
    atoms: Seq<(Seq<char>, M::Number)>,
    multiplier: M::Number,
) -> Seq<(Seq<char>, M::Number)> {
    atoms.map_values(
        |entry: (Seq<char>, M::Number)|
            (entry.0, M::sum(M::integer(0), M::product(entry.1, multiplier))),
    )
}

proof fn lemma_group_alone<M: Numerals>(
    group: Seq<(Seq<char>, M::Number)>,
    multiplier: M::Number,
)
    requires
        ordered(group),
    ensures
        with_group::<M>(Seq::empty(), group, multiplier) == multiplied_counts::<M>(
            group,
            multiplier,
        ),
    decreases group.len(),
{
    if group.len() > 0 {
        let front = group.drop_last();
        let last = group.last();
        lemma_group_alone::<M>(front, multiplier);
        let done = multiplied_counts::<M>(front, multiplier);
        if front.len() > 0 {
            assert(done.last().0 == group[group.len() - 2].0);
            assert(precedes(group[group.len() - 2].0, group[group.len() - 1].0));
        }
        assert(with_group::<M>(Seq::empty(), group, multiplier) == multiplied_counts::<M>(
            group,
            multiplier,
        ));
    } else {
        assert(multiplied_counts::<M>(group, multiplier) == group);
    }
}

pub proof fn lemma_digits_are_digits(text: Seq<char>, i: int)
    requires
        0 <= i <= text.len(),
    ensures
        i <= digits_end(text, i) <= text.len(),
        forall|k: int| i <= k < digits_end(text, i) ==> ascii_digit(#[trigger] text[k]),
    decreases text.len() - i,
{
    if i < text.len() && ascii_digit(text[i]) {
        lemma_digits_are_digits(text, i + 1);
    }
}

/// The characters of a decimal number are digits and points, and the last one is a digit.
pub proof fn lemma_literal_characters(text: Seq<char>)
    requires
        decimal_literal(text),
    ensures
        forall|k: int|
            0 <= k < text.len() ==> ascii_digit(#[trigger] text[k]) || text[k] == '.',
        ascii_digit(text.last()),
{
    lemma_digits_are_digits(text, 0);
    let whole = digits_end(text, 0);
    if whole > 0 && decimal_point_at(text, whole) {
        lemma_digits_are_digits(text, whole + 1);
        assert(ascii_digit(text[whole + 1]));
        assert(ascii_digit(text[text.len() - 1]));
    } else {
        assert(ascii_digit(text[text.len() - 1]));
    }
}

/// Law: a formula in brackets of any kind, followed by a decimal number, is a formula. It holds the
/// elements of the formula in the brackets, each with its count times the number. The product is
/// added to zero, which changes nothing where zero is neutral and the product is above zero.
pub proof fn law_brackets_multiply<A: Arithmetic>(
    open: char,
    formula: Seq<char>,
    count: Seq<char>,
    value: A::Number,
)
    requires
        opening_bracket(open),
        trim(formula) == formula,
        compound_of::<A>(formula) is Ok,
        decimal_literal(count),
        denotes_count::<A>(count, value),
    ensures
        compound_of::<A>(bracketed(open, formula, count)) matches Ok(whole) && {
            &&& compound_of::<A>(formula) matches Ok(inner)
            &&& whole.formula == bracketed(open, formula, count)
            &&& whole.atoms == multiplied_counts::<Machine<A>>(inner.atoms, value)
            &&& forall|element: Seq<char>| #[trigger]
                count_in(whole.atoms, element) == match count_in(inner.atoms, element) {
                    Some(number) => Some(A::sum(A::integer(0), A::product(number, value))),
                    None => None,
                }
            &&& zero_is_neutral::<A>() ==> forall|element: Seq<char>| #[trigger]
                count_in(inner.atoms, element) matches Some(number) ==> A::below(
                    A::integer(0),
                    A::product(number, value),
                ) ==> count_in(whole.atoms, element) == Some(A::product(number, value))
        },
{
    let text = bracketed(open, formula, count);
    let n = formula.len() as int;
    let close = closing_of(open);
    law_compound::<A>(formula);
    if let Ok(inner) = compound_of::<A>(formula) {
        // The text is read as a whole.
        lemma_literal_characters(count);
        assert(text[0] == open);
        assert(text[n + 1] == close);
        assert(text.last() == count.last());
        assert(trim(text) == text) by {
            let drop = |c: char| white_space(c);
            assert(trim_start(text, drop) == text);
            assert(trim_end(text, drop) == text);
        }
        assert forall|i: int| 0 <= i < text.len() implies !hydrate_separator(#[trigger] text[i]) by {
            if 0 < i <= n {
                assert(text[i] == formula[i - 1]);
            } else if i > n + 1 {
                assert(text[i] == count[i - n - 2]);
            }
        }
        // The brackets hold what the formula holds.
        assert(embedded(formula, text, 1));
        lemma_group_bounds::<A>(formula, 0, Seq::empty(), None);
        lemma_group_embedded::<A>(formula, text, 1, 0, Seq::empty(), None);
        // The count follows.
        assert(embedded(count, text, n + 2));
        lemma_decimal_embedded::<A>(count, text, n + 2, 0);
        assert(count.subrange(0, count.len() as int) == count);
        assert(count_at::<A>(text, n + 2) == Ok::<(A::Number, int), FormulaFault>(
            (value, text.len() as int),
        ));
        let atoms = with_group::<Machine<A>>(Seq::empty(), inner.atoms, value);
        assert(group_at::<A>(text, text.len() as int, atoms, None) == Ok::<
            (Seq<(Seq<char>, A::Number)>, int),
            FormulaFault,
        >((atoms, text.len() as int)));
        assert(group_at::<A>(text, 0, Seq::empty(), None) == Ok::<
            (Seq<(Seq<char>, A::Number)>, int),
            FormulaFault,
        >((atoms, text.len() as int)));
        // The elements are known, so they have a mass.
        lemma_group_alone::<Machine<A>>(inner.atoms, value);
        assert forall|i: int| 0 <= i < atoms.len() implies weight_of::<Machine<A>>(
            (#[trigger] atoms[i]).0,
        ) is Some by {
            assert(weight_of::<Machine<A>>(inner.atoms[i].0) is Some);
        }
        assert(all_known::<Machine<A>>(atoms));
        law_known_elements_have_mass::<Machine<A>>(atoms);
        assert forall|element: Seq<char>| #[trigger]
            count_in(atoms, element) == match count_in(inner.atoms, element) {
                Some(number) => Some(A::sum(A::integer(0), A::product(number, value))),
                None => None,
            } by {
            law_with_group::<Machine<A>>(Seq::empty(), inner.atoms, value, element);
        }
    }
}

} // verus!
