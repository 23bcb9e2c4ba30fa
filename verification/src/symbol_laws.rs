//! Which elements a formula names, and how many atoms of each it counts.

use vstd::prelude::*;

use crate::arithmetic::{Arithmetic, Machine};
use crate::bracket_laws::{bracketed, closed_off, denotes_count, embedded, lemma_count_embedded, lemma_decimal_embedded, lemma_digits_are_digits, lemma_group_embedded, number_ends};
use crate::elements::weight_of;
use crate::formula::{closing_bracket, closing_of, compound_of, count_at, count_in, count_or_zero, decimal_at, decimal_end, digits_end, group_at, hydrate_separator, lemma_count_bounds, lemma_decimal_bounds, lemma_group_bounds, mass_of, opening_bracket, ordered, symbol_end, with_count, with_group, FormulaFault, Substance};
use crate::formula_laws::{law_compound, law_known_elements_have_mass, law_with_count, law_with_group, lemma_count_in_some, lemma_group_atoms};
use crate::text::{all_digits, ascii_digit, ascii_lowercase, ascii_uppercase, lemma_precedes_irreflexive, precedes, trim, trim_end, trim_start, white_space};
use crate::weighing::keys;

verus! {

/// Whether an element symbol is written in a text, between two indices: a capital letter, with the
/// lower-case letter behind it if there is one.
pub open spec fn written_between(chars: Seq<char>, from: int, to: int, element: Seq<char>) -> bool {
    exists|k: int|
        from <= k < to && ascii_uppercase(#[trigger] chars[k]) && chars.subrange(
            k,
            symbol_end(chars, k),
        ) == element
}

/// Whether an element symbol is written in a formula.
pub open spec fn written_in(formula: Seq<char>, element: Seq<char>) -> bool {
    written_between(formula, 0, formula.len() as int, element)
}

/// No capital letter stands in a decimal number.
proof fn lemma_decimal_plain<A: Arithmetic>(chars: Seq<char>, start: int)
    requires
        0 <= start <= chars.len(),
    ensures
        decimal_at::<A>(chars, start) matches Ok((_, end)) ==> start <= end <= chars.len()
            && forall|k: int| start <= k < end ==> !ascii_uppercase(#[trigger] chars[k]),
{
    lemma_decimal_bounds::<A>(chars, start);
    lemma_digits_are_digits(chars, start);
    let whole = digits_end(chars, start);
    if whole + 1 <= chars.len() {
        lemma_digits_are_digits(chars, whole + 1);
    }
    if let Some(end) = decimal_end(chars, start) {
        assert forall|k: int| start <= k < end implies !ascii_uppercase(#[trigger] chars[k]) by {
            if k != whole {
                assert(ascii_digit(chars[k]));
            }
        }
    }
}

/// No capital letter stands in a count.
proof fn lemma_count_plain<A: Arithmetic>(chars: Seq<char>, start: int)
    requires
        0 <= start <= chars.len(),
    ensures
        count_at::<A>(chars, start) matches Ok((_, end)) ==> start <= end <= chars.len()
            && forall|k: int| start <= k < end ==> !ascii_uppercase(#[trigger] chars[k]),
{
    lemma_count_bounds::<A>(chars, start);
    lemma_decimal_plain::<A>(chars, start);
    if let Ok((Some(_), end)) = decimal_at::<A>(chars, start) {
        if end < chars.len() {
            lemma_decimal_plain::<A>(chars, end + 1);
        }
    }
}

/// Reading on from an index adds the elements that are written from there to where it ends.
proof fn lemma_group_symbols<A: Arithmetic>(
    chars: Seq<char>,
    i: int,
    atoms: Seq<(Seq<char>, A::Number)>,
    stop: Option<char>,
    element: Seq<char>,
)
    requires
        0 <= i <= chars.len(),
        ordered(atoms),
    ensures
        group_at::<A>(chars, i, atoms, stop) matches Ok((found, end)) ==> (count_in(found, element)
            is Some <==> count_in(atoms, element) is Some || written_between(
            chars,
            i,
            end,
            element,
        )),
    decreases chars.len() - i,
{
    if i < chars.len() {
        lemma_group_bounds::<A>(chars, i, atoms, stop);
        if opening_bracket(chars[i]) {
            let inner = Some(closing_of(chars[i]));
            lemma_group_symbols::<A>(chars, i + 1, Seq::empty(), inner, element);
            lemma_group_bounds::<A>(chars, i + 1, Seq::empty(), inner);
            lemma_group_atoms::<A>(chars, i + 1, Seq::empty(), inner);
            if let Ok((group, close)) = group_at::<A>(chars, i + 1, Seq::empty(), inner) {
                lemma_count_plain::<A>(chars, close);
                if let Ok((multiplier, next)) = count_at::<A>(chars, close) {
                    let more = with_group::<Machine<A>>(atoms, group, multiplier);
                    law_with_group::<Machine<A>>(atoms, group, multiplier, element);
                    lemma_group_bounds::<A>(chars, next, more, stop);
                    lemma_group_symbols::<A>(chars, next, more, stop, element);
                    if let Ok((found, end)) = group_at::<A>(chars, next, more, stop) {
                        lemma_split_written(chars, i, i + 1, end, element);
                        lemma_split_written(chars, i + 1, close, end, element);
                        lemma_split_written(chars, close, next, end, element);
                        lemma_nothing_written(chars, i, i + 1, element);
                        lemma_nothing_written(chars, close, next, element);
                    }
                }
            }
        } else if closing_bracket(chars[i]) {
            lemma_nothing_written(chars, i, i + 1, element);
        } else if ascii_uppercase(chars[i]) {
            let j = symbol_end(chars, i);
            let symbol = chars.subrange(i, j);
            lemma_count_plain::<A>(chars, j);
            if let Ok((count, next)) = count_at::<A>(chars, j) {
                let more = with_count::<Machine<A>>(atoms, symbol, count);
                law_with_count::<Machine<A>>(atoms, symbol, count, element);
                lemma_group_bounds::<A>(chars, next, more, stop);
                lemma_group_symbols::<A>(chars, next, more, stop, element);
                if let Ok((found, end)) = group_at::<A>(chars, next, more, stop) {
                    if weight_of::<Machine<A>>(symbol) is Some {
                        lemma_split_written(chars, i, i + 1, end, element);
                        lemma_split_written(chars, i + 1, next, end, element);
                        lemma_nothing_written(chars, i + 1, next, element);
                        if symbol == element {
                            assert(ascii_uppercase(chars[i]));
                            assert(written_between(chars, i, i + 1, element));
                        }
                    }
                }
            }
        }
    }
}

proof fn lemma_split_written(
    chars: Seq<char>,
    from: int,
    middle: int,
    to: int,
    element: Seq<char>,
)
    requires
        from <= middle <= to,
    ensures
        written_between(chars, from, to, element) <==> written_between(chars, from, middle, element)
            || written_between(chars, middle, to, element),
{
    if written_between(chars, from, to, element) {
        let k = choose|k: int|
            from <= k < to && ascii_uppercase(#[trigger] chars[k]) && chars.subrange(
                k,
                symbol_end(chars, k),
            ) == element;
        assert(ascii_uppercase(chars[k]));
    }
}

proof fn lemma_nothing_written(chars: Seq<char>, from: int, to: int, element: Seq<char>)
    requires
        forall|k: int| from <= k < to ==> !ascii_uppercase(#[trigger] chars[k]),
    ensures
        !written_between(chars, from, to, element),
{
}

/// Law: a compound holds exactly the elements whose symbols are written in its formula.
pub proof fn law_elements_are_those_written<A: Arithmetic>(text: Seq<char>, element: Seq<char>)
    ensures
        compound_of::<A>(text) matches Ok(compound) ==> {
            &&& count_in(compound.atoms, element) is Some <==> written_in(compound.formula, element)
            &&& keys(compound.atoms).contains(element) <==> written_in(compound.formula, element)
        },
{
    law_compound::<A>(text);
    if let Ok(compound) = compound_of::<A>(text) {
        lemma_group_bounds::<A>(compound.formula, 0, Seq::empty(), None);
        lemma_group_symbols::<A>(compound.formula, 0, Seq::empty(), None, element);
        lemma_count_in_some(compound.atoms, element);
        if count_in(compound.atoms, element) is Some {
            let i = choose|i: int|
                0 <= i < compound.atoms.len() && (#[trigger] compound.atoms[i]).0 == element;
            assert(keys(compound.atoms)[i] == element);
        }
        if keys(compound.atoms).contains(element) {
            let i = choose|i: int|
                0 <= i < keys(compound.atoms).len() && keys(compound.atoms)[i] == element;
            assert(compound.atoms[i].0 == element);
        }
    }
}

/// Whether a text is a decimal number: digits, or digits, a point and digits.
pub open spec fn plain_number(text: Seq<char>) -> bool {
    ||| text.len() > 0 && all_digits(text)
    ||| exists|k: int|
        0 < k < text.len() - 1 && #[trigger] text[k] == '.' && all_digits(text.take(k))
            && all_digits(text.skip(k + 1))
}

/// Whether a text writes a fraction of two decimal numbers.
pub open spec fn writes_fraction<A: Arithmetic>(
    text: Seq<char>,
    numerator: Seq<char>,
    a: A::Number,
    denominator: Seq<char>,
    b: A::Number,
) -> bool {
    &&& text == numerator + seq!['/'] + denominator
    &&& plain_number(numerator) && denotes_count::<A>(numerator, a)
    &&& plain_number(denominator) && denotes_count::<A>(denominator, b)
}

/// Whether a text behind an element or a group counts for a number: no text counts for one, a
/// decimal number for itself, and a fraction for the quotient of its two numbers.
pub open spec fn writes_count<A: Arithmetic>(text: Seq<char>, value: A::Number) -> bool {
    ||| text.len() == 0 && value == A::integer(1)
    ||| plain_number(text) && denotes_count::<A>(text, value)
    ||| exists|numerator: Seq<char>, a: A::Number, denominator: Seq<char>, b: A::Number|
        #[trigger] writes_fraction::<A>(text, numerator, a, denominator, b) && value
            == A::quotient(a, b)
}

/// The run of digits ends where the first character stands that is none.
proof fn lemma_digits_run(text: Seq<char>, i: int, end: int)
    requires
        0 <= i <= end <= text.len(),
        forall|k: int| i <= k < end ==> ascii_digit(#[trigger] text[k]),
        end < text.len() ==> !ascii_digit(text[end]),
    ensures
        digits_end(text, i) == end,
    decreases end - i,
{
    if i < end {
        lemma_digits_run(text, i + 1, end);
    }
}

/// A decimal number is read as such, and consists of digits and points.
proof fn lemma_plain_number(text: Seq<char>)
    requires
        plain_number(text),
    ensures
        text.len() > 0,
        decimal_end(text, 0) == Some(text.len() as int),
        forall|k: int|
            0 <= k < text.len() ==> ascii_digit(#[trigger] text[k]) || text[k] == '.',
        ascii_digit(text[0]),
        ascii_digit(text.last()),
{
    if text.len() > 0 && all_digits(text) {
        lemma_digits_run(text, 0, text.len() as int);
    } else {
        let k = choose|k: int|
            0 < k < text.len() - 1 && #[trigger] text[k] == '.' && all_digits(text.take(k))
                && all_digits(text.skip(k + 1));
        let front = text.take(k);
        let back = text.skip(k + 1);
        assert forall|j: int| 0 <= j < k implies ascii_digit(#[trigger] text[j]) by {
            assert(ascii_digit(front[j]));
        }
        assert forall|j: int| k < j < text.len() implies ascii_digit(#[trigger] text[j]) by {
            assert(ascii_digit(back[j - k - 1]));
        }
        lemma_digits_run(text, 0, k);
        lemma_digits_run(text, k + 1, text.len() as int);
    }
}

/// A decimal number in a text, with nothing behind it that continues it, is read as its value.
proof fn lemma_number_is_read<A: Arithmetic>(
    text: Seq<char>,
    at: int,
    number: Seq<char>,
    value: A::Number,
)
    requires
        plain_number(number),
        denotes_count::<A>(number, value),
        embedded(number, text, at),
        number_ends(number, text, at),
    ensures
        decimal_at::<A>(text, at) == Ok::<(Option<A::Number>, int), FormulaFault>(
            (Some(value), at + number.len()),
        ),
{
    lemma_plain_number(number);
    lemma_decimal_embedded::<A>(number, text, at, 0);
    assert(number.subrange(0, number.len() as int) == number);
}

/// A fraction at the end of a text is read as the quotient of its two numbers.
proof fn lemma_fraction_is_read<A: Arithmetic>(
    before: Seq<char>,
    count: Seq<char>,
    n: Seq<char>,
    a: A::Number,
    d: Seq<char>,
    b: A::Number,
)
    requires
        writes_fraction::<A>(count, n, a, d, b),
    ensures
        count_at::<A>(before + count, before.len() as int) == Ok::<(A::Number, int), FormulaFault>(
            (A::quotient(a, b), (before + count).len() as int),
        ),
        forall|k: int|
            0 <= k < count.len() ==> ascii_digit(#[trigger] count[k]) || count[k] == '.' || count[k]
                == '/',
        ascii_digit(count[0]) && ascii_digit(count.last()),
{
    let text = before + count;
    let at = before.len() as int;
    let m = n.len() as int;
    lemma_plain_number(n);
    lemma_plain_number(d);
    assert forall|k: int| 0 <= k < m implies #[trigger] n[k] == count[k] by {}
    assert(count[m] == '/');
    assert forall|k: int| 0 <= k < d.len() implies #[trigger] d[k] == count[m + 1 + k] by {}
    assert(text[at + m] == count[m]);
    assert(embedded(n, text, at));
    lemma_number_is_read::<A>(text, at, n, a);
    assert(embedded(d, text, at + m + 1));
    lemma_number_is_read::<A>(text, at + m + 1, d, b);
    assert forall|k: int| 0 <= k < count.len() implies ascii_digit(#[trigger] count[k]) || count[k]
        == '.' || count[k] == '/' by {
        if k < m {
            assert(count[k] == n[k]);
        } else if k > m {
            assert(count[k] == d[k - m - 1]);
        }
    }
    assert(count.last() == d.last());
    assert(count[0] == n[0]);
}

/// A count at the end of a text is read as the number that it counts for.
proof fn lemma_count_is_read<A: Arithmetic>(before: Seq<char>, count: Seq<char>, value: A::Number)
    requires
        writes_count::<A>(count, value),
    ensures
        count_at::<A>(before + count, before.len() as int) == Ok::<(A::Number, int), FormulaFault>(
            (value, (before + count).len() as int),
        ),
        forall|k: int|
            0 <= k < count.len() ==> ascii_digit(#[trigger] count[k]) || count[k] == '.' || count[k]
                == '/',
        count.len() > 0 ==> ascii_digit(count[0]) && ascii_digit(count.last()),
{
    let text = before + count;
    let at = before.len() as int;
    if count.len() == 0 {
        assert(digits_end(text, at) == at);
    } else if plain_number(count) && denotes_count::<A>(count, value) {
        lemma_plain_number(count);
        assert(embedded(count, text, at));
        lemma_number_is_read::<A>(text, at, count, value);
    } else {
        let (n, a, d, b) = choose|
            numerator: Seq<char>,
            a: A::Number,
            denominator: Seq<char>,
            b: A::Number,
        |
            #[trigger] writes_fraction::<A>(count, numerator, a, denominator, b) && value
                == A::quotient(a, b);
        lemma_fraction_is_read::<A>(before, count, n, a, d, b);
    }
}

/// What is read from a formula is read from the same formula in a larger text, where the reading
/// goes on behind it.
proof fn lemma_group_goes_on<A: Arithmetic>(
    part: Seq<char>,
    text: Seq<char>,
    at: int,
    i: int,
    atoms: Seq<(Seq<char>, A::Number)>,
    stop: Option<char>,
    outer: Option<char>,
)
    requires
        embedded(part, text, at),
        closed_off(part, text, at),
        0 <= i <= part.len(),
    ensures
        group_at::<A>(part, i, atoms, stop) matches Ok((found, end)) ==> (if stop is Some {
            group_at::<A>(text, at + i, atoms, stop) == Ok::<
                (Seq<(Seq<char>, A::Number)>, int),
                FormulaFault,
            >((found, at + end))
        } else {
            group_at::<A>(text, at + i, atoms, outer) == group_at::<A>(
                text,
                at + part.len(),
                found,
                outer,
            )
        }),
    decreases part.len() - i,
{
    if i < part.len() && group_at::<A>(part, i, atoms, stop) is Ok {
        let c = part[i];
        assert(c == text[at + i]);
        if opening_bracket(c) {
            let inner = Some(closing_of(c));
            lemma_group_goes_on::<A>(part, text, at, i + 1, Seq::empty(), inner, None);
            lemma_group_bounds::<A>(part, i + 1, Seq::empty(), inner);
            if let Ok((group, behind)) = group_at::<A>(part, i + 1, Seq::empty(), inner) {
                lemma_count_embedded::<A>(part, text, at, behind);
                lemma_count_bounds::<A>(part, behind);
                if let Ok((multiplier, next)) = count_at::<A>(part, behind) {
                    lemma_group_goes_on::<A>(
                        part,
                        text,
                        at,
                        next,
                        with_group::<Machine<A>>(atoms, group, multiplier),
                        stop,
                        outer,
                    );
                }
            }
        } else if closing_bracket(c) {
        } else if ascii_uppercase(c) {
            let j = symbol_end(part, i);
            if i + 1 < part.len() {
                assert(part[i + 1] == text[at + (i + 1)]);
            }
            assert(symbol_end(text, at + i) == at + j);
            let symbol = part.subrange(i, j);
            assert(text.subrange(at + i, at + j) == symbol);
            if weight_of::<Machine<A>>(symbol) is Some {
                lemma_count_embedded::<A>(part, text, at, j);
                lemma_count_bounds::<A>(part, j);
                if let Ok((count, next)) = count_at::<A>(part, j) {
                    lemma_group_goes_on::<A>(
                        part,
                        text,
                        at,
                        next,
                        with_count::<Machine<A>>(atoms, symbol, count),
                        stop,
                        outer,
                    );
                }
            }
        }
    }
}

/// Whether a text is empty or a formula, without white space at its ends.
pub open spec fn formula_so_far<A: Arithmetic>(text: Seq<char>) -> bool {
    text.len() == 0 || (trim(text) == text && compound_of::<A>(text) is Ok)
}

/// The element counts of a text that is empty or a formula.
pub open spec fn atoms_so_far<A: Arithmetic>(text: Seq<char>) -> Seq<(Seq<char>, A::Number)> {
    match compound_of::<A>(text) {
        Ok(compound) => compound.atoms,
        Err(_) => Seq::empty(),
    }
}

/// Whether a text has the form of an element symbol: a capital letter, or one and a lower-case
/// letter.
pub open spec fn symbol_form(text: Seq<char>) -> bool {
    &&& 1 <= text.len() <= 2
    &&& ascii_uppercase(text[0])
    &&& text.len() == 2 ==> ascii_lowercase(text[1])
}

/// A text made of a formula and more, read as a whole.
proof fn lemma_read_as_a_whole<A: Arithmetic>(
    before: Seq<char>,
    text: Seq<char>,
    atoms: Seq<(Seq<char>, A::Number)>,
)
    requires
        formula_so_far::<A>(before),
        embedded(before, text, 0),
        before.len() < text.len(),
        opening_bracket(text[before.len() as int]) || ascii_uppercase(text[before.len() as int]),
        !white_space(text.last()),
        forall|k: int|
            before.len() <= k < text.len() ==> !hydrate_separator(#[trigger] text[k]),
        group_at::<A>(text, before.len() as int, atoms_so_far::<A>(before), None) == Ok::<
            (Seq<(Seq<char>, A::Number)>, int),
            FormulaFault,
        >((atoms, text.len() as int)),
        atoms.len() > 0,
    ensures
        compound_of::<A>(text) matches Ok(whole) && whole.formula == text && whole.atoms == atoms,
{
    let drop = |c: char| white_space(c);
    if before.len() == 0 {
        assert(trim(before).len() == 0);
    } else {
        law_compound::<A>(before);
        assert(text[0] == before[0]);
        lemma_trimmed_ends(before);
        lemma_group_goes_on::<A>(before, text, 0, 0, Seq::empty(), None, None);
        lemma_group_bounds::<A>(before, 0, Seq::empty(), None);
    }
    assert(!white_space(text[0]));
    assert(trim_start(text, drop) == text);
    assert(trim_end(text, drop) == text);
    assert(trim(text) == text);
    assert forall|k: int| 0 <= k < text.len() implies !hydrate_separator(#[trigger] text[k]) by {
        if k < before.len() {
            assert(before[k] == text[0 + k]);
            assert(!hydrate_separator(before[k]));
        }
    }
    assert(group_at::<A>(text, 0, Seq::empty(), None) == Ok::<
        (Seq<(Seq<char>, A::Number)>, int),
        FormulaFault,
    >((atoms, text.len() as int)));
    lemma_group_atoms::<A>(text, 0, Seq::empty(), None);
    law_known_elements_have_mass::<Machine<A>>(atoms);
}

/// A text that trimming leaves as it is starts with no white space.
proof fn lemma_trimmed_ends(text: Seq<char>)
    requires
        trim(text) == text,
        text.len() > 0,
    ensures
        !white_space(text[0]),
{
    let drop = |c: char| white_space(c);
    lemma_trims_shorten(text, drop);
    if white_space(text[0]) {
        lemma_trims_shorten(text.drop_first(), drop);
        assert(trim_start(text, drop) == trim_start(text.drop_first(), drop));
        lemma_trims_shorten(trim_start(text, drop), drop);
        assert(trim(text).len() < text.len());
    }
}

proof fn lemma_trims_shorten(text: Seq<char>, drop: spec_fn(char) -> bool)
    ensures
        trim_start(text, drop).len() <= text.len(),
        trim_end(text, drop).len() <= text.len(),
    decreases text.len(),
{
    if text.len() > 0 {
        lemma_trims_shorten(text.drop_first(), drop);
        lemma_trims_shorten(text.drop_last(), drop);
    }
}

/// Law: an element symbol with a count, put behind a formula or standing alone, makes a formula in
/// which that element counts for that much more, and every other element for as much as before. No
/// count counts for one, a decimal number for itself, and a fraction for the quotient of its two
/// numbers.
#[verifier::rlimit(30)]
pub proof fn law_element_is_counted<A: Arithmetic>(
    before: Seq<char>,
    symbol: Seq<char>,
    count: Seq<char>,
    value: A::Number,
    element: Seq<char>,
)
    requires
        formula_so_far::<A>(before),
        symbol_form(symbol),
        weight_of::<Machine<A>>(symbol) is Some,
        writes_count::<A>(count, value),
    ensures
        compound_of::<A>(before + symbol + count) matches Ok(whole) && {
            &&& whole.formula == before + symbol + count
            &&& count_in(whole.atoms, element) == (if element == symbol {
                Some(A::sum(count_or_zero::<Machine<A>>(atoms_so_far::<A>(before), symbol), value))
            } else {
                count_in(atoms_so_far::<A>(before), element)
            })
        },
{
    let text = before + symbol + count;
    let at = before.len() as int;
    let old_atoms = atoms_so_far::<A>(before);
    lemma_count_is_read::<A>(before + symbol, count, value);
    assert(text[at] == symbol[0]);
    if symbol.len() == 2 {
        assert(text[at + 1] == symbol[1]);
    } else if count.len() > 0 {
        assert(text[at + 1] == count[0]);
    }
    assert(symbol_end(text, at) == at + symbol.len());
    assert(text.subrange(at, at + symbol.len()) == symbol);
    law_compound::<A>(before);
    if before.len() == 0 {
        lemma_empty_is_no_compound::<A>(before);
    }
    let atoms = with_count::<Machine<A>>(old_atoms, symbol, value);
    law_with_count::<Machine<A>>(old_atoms, symbol, value, element);
    law_with_count::<Machine<A>>(old_atoms, symbol, value, symbol);
    assert(atoms.len() > 0);
    assert(embedded(before, text, 0));
    if count.len() > 0 {
        assert(text.last() == count.last());
    } else {
        assert(text.last() == symbol.last());
    }
    assert forall|k: int| at <= k < text.len() implies !hydrate_separator(#[trigger] text[k]) by {
        if k < at + symbol.len() {
            assert(text[k] == symbol[k - at]);
        } else {
            assert(text[k] == count[k - at - symbol.len()]);
        }
    }
    assert(group_at::<A>(text, text.len() as int, atoms, None) == Ok::<
        (Seq<(Seq<char>, A::Number)>, int),
        FormulaFault,
    >((atoms, text.len() as int)));
    lemma_read_as_a_whole::<A>(before, text, atoms);
}

proof fn lemma_empty_is_no_compound<A: Arithmetic>(text: Seq<char>)
    requires
        text.len() == 0,
    ensures
        compound_of::<A>(text) is Err,
{
    assert(trim_start(text, |c: char| white_space(c)) == text);
    assert(trim(text).len() == 0);
}

/// Law: a formula in brackets of any kind with a count, put behind a formula or standing alone,
/// makes a formula in which each element of the brackets counts for its count there times that
/// number more, and every other element for as much as before. No count counts for one, a decimal
/// number for itself, and a fraction for the quotient of its two numbers.
#[verifier::rlimit(30)]
pub proof fn law_group_is_counted<A: Arithmetic>(
    before: Seq<char>,
    open: char,
    inside: Seq<char>,
    count: Seq<char>,
    value: A::Number,
    element: Seq<char>,
)
    requires
        formula_so_far::<A>(before),
        opening_bracket(open),
        trim(inside) == inside,
        compound_of::<A>(inside) is Ok,
        writes_count::<A>(count, value),
    ensures
        compound_of::<A>(before + bracketed(open, inside, count)) matches Ok(whole) && {
            &&& whole.formula == before + bracketed(open, inside, count)
            &&& count_in(whole.atoms, element) == match count_in(
                atoms_so_far::<A>(inside),
                element,
            ) {
                Some(number) => Some(
                    A::sum(
                        count_or_zero::<Machine<A>>(atoms_so_far::<A>(before), element),
                        A::product(number, value),
                    ),
                ),
                None => count_in(atoms_so_far::<A>(before), element),
            }
        },
{
    let text = before + bracketed(open, inside, count);
    let at = before.len() as int;
    let n = inside.len() as int;
    let close = closing_of(open);
    let front = before + (seq![open] + inside + seq![close]);
    let old_atoms = atoms_so_far::<A>(before);
    let group = atoms_so_far::<A>(inside);
    assert(text == front + count);
    lemma_count_is_read::<A>(front, count, value);
    assert(text[at] == open);
    assert(text[at + n + 1] == close);
    law_compound::<A>(before);
    law_compound::<A>(inside);
    if before.len() == 0 {
        lemma_empty_is_no_compound::<A>(before);
    }
    assert(embedded(inside, text, at + 1)) by {
        assert forall|k: int| 0 <= k < n implies #[trigger] inside[k] == text[at + 1 + k] by {
            assert(bracketed(open, inside, count)[k + 1] == inside[k]);
        }
    }
    lemma_group_bounds::<A>(inside, 0, Seq::empty(), None);
    lemma_group_embedded::<A>(inside, text, at + 1, 0, Seq::empty(), None);
    assert(group_at::<A>(text, at + 1, Seq::empty(), Some(close)) == Ok::<
        (Seq<(Seq<char>, A::Number)>, int),
        FormulaFault,
    >((group, at + n + 2)));
    let atoms = with_group::<Machine<A>>(old_atoms, group, value);
    law_with_group::<Machine<A>>(old_atoms, group, value, element);
    let first = group[0].0;
    law_with_group::<Machine<A>>(old_atoms, group, value, first);
    lemma_count_in_some(group, first);
    assert(group[0].0 == first);
    assert(count_in(atoms, first) is Some);
    assert(atoms.len() > 0);
    assert(embedded(before, text, 0));
    if count.len() > 0 {
        assert(text.last() == count.last());
    } else {
        assert(text.last() == close);
    }
    assert forall|k: int| at <= k < text.len() implies !hydrate_separator(#[trigger] text[k]) by {
        if at < k <= at + n {
            assert(text[k] == inside[k - at - 1]);
            assert(!hydrate_separator(inside[k - at - 1]));
        } else if k > at + n + 1 {
            assert(text[k] == count[k - at - n - 2]);
        }
    }
    assert(group_at::<A>(text, text.len() as int, atoms, None) == Ok::<
        (Seq<(Seq<char>, A::Number)>, int),
        FormulaFault,
    >((atoms, text.len() as int)));
    lemma_read_as_a_whole::<A>(before, text, atoms);
}

/// Whether a text is to be read as it stands: trimming leaves it as it is, it is not empty, and no
/// separator of hydrates is in it.
pub open spec fn readable_text(text: Seq<char>) -> bool {
    &&& trim(text) == text
    &&& text.len() > 0
    &&& forall|k: int| 0 <= k < text.len() ==> !hydrate_separator(#[trigger] text[k])
}

/// A text that starts with a formula is read on behind the formula.
proof fn lemma_reading_reaches<A: Arithmetic>(before: Seq<char>, text: Seq<char>)
    requires
        formula_so_far::<A>(before),
        embedded(before, text, 0),
        before.len() > 0 ==> closed_off(before, text, 0),
        readable_text(text),
    ensures
        group_at::<A>(text, 0, Seq::empty(), None) == group_at::<A>(
            text,
            before.len() as int,
            atoms_so_far::<A>(before),
            None,
        ),
        group_at::<A>(text, 0, Seq::empty(), None) matches Err(fault) ==> compound_of::<A>(text)
            == Err::<Substance<A::Number>, FormulaFault>(fault),
{
    if before.len() == 0 {
        lemma_empty_is_no_compound::<A>(before);
    } else {
        law_compound::<A>(before);
        lemma_group_bounds::<A>(before, 0, Seq::empty(), None);
        lemma_group_goes_on::<A>(before, text, 0, 0, Seq::empty(), None, None);
    }
}

/// Law: a text of nothing but white space is refused as empty, and a text with a separator of
/// hydrates as a hydrate.
pub proof fn law_blank_and_hydrate<A: Arithmetic>(text: Seq<char>, k: int)
    ensures
        trim(text).len() == 0 ==> compound_of::<A>(text) == Err::<
            Substance<A::Number>,
            FormulaFault,
        >(FormulaFault::Empty),
        0 <= k < trim(text).len() && seq!['・', '·', '•'].contains(trim(text)[k])
            ==> compound_of::<A>(text) == Err::<Substance<A::Number>, FormulaFault>(
            FormulaFault::Hydrate,
        ),
{
    let marks = seq!['・', '·', '•'];
    assert(marks[0] == '・' && marks[1] == '·' && marks[2] == '•');
    if 0 <= k < trim(text).len() && marks.contains(trim(text)[k]) {
        assert(hydrate_separator(trim(text)[k]));
    }
}

/// Law: a formula, or nothing, with a character behind it that starts neither an element nor a
/// group is refused, and the refusal names that character, or a closing bracket that closes
/// nothing.
pub proof fn law_stray_character_is_named<A: Arithmetic>(before: Seq<char>, rest: Seq<char>)
    requires
        formula_so_far::<A>(before),
        rest.len() > 0,
        readable_text(before + rest),
        !ascii_uppercase(rest[0]) && !seq!['(', '[', '{'].contains(rest[0]),
        before.len() > 0 ==> !ascii_digit(rest[0]) && rest[0] != '.' && rest[0] != '/'
            && !ascii_lowercase(rest[0]),
    ensures
        compound_of::<A>(before + rest) == Err::<Substance<A::Number>, FormulaFault>(
            if seq![')', ']', '}'].contains(rest[0]) {
                FormulaFault::MismatchedBracket
            } else {
                FormulaFault::UnreadableCharacter(rest[0])
            },
        ),
{
    let text = before + rest;
    let at = before.len() as int;
    let c = rest[0];
    law_brackets_pair(c, c);
    assert(text[at] == c);
    lemma_stray::<A>(before, text, c);
}

proof fn lemma_stray<A: Arithmetic>(before: Seq<char>, text: Seq<char>, c: char)
    requires
        formula_so_far::<A>(before),
        embedded(before, text, 0),
        before.len() < text.len(),
        text[before.len() as int] == c,
        readable_text(text),
        !ascii_uppercase(c) && !opening_bracket(c),
        before.len() > 0 ==> !ascii_digit(c) && c != '.' && c != '/' && !ascii_lowercase(c),
    ensures
        compound_of::<A>(text) == Err::<Substance<A::Number>, FormulaFault>(
            if closing_bracket(c) {
                FormulaFault::MismatchedBracket
            } else {
                FormulaFault::UnreadableCharacter(c)
            },
        ),
{
    lemma_reading_reaches::<A>(before, text);
}

/// Law: a formula, or nothing, with a symbol behind it that is no element's is refused, and the
/// refusal names the symbol.
pub proof fn law_unknown_element_is_named<A: Arithmetic>(
    before: Seq<char>,
    symbol: Seq<char>,
    rest: Seq<char>,
)
    requires
        formula_so_far::<A>(before),
        symbol_form(symbol),
        weight_of::<Machine<A>>(symbol) is None,
        symbol.len() == 1 && rest.len() > 0 ==> !ascii_lowercase(rest[0]),
        readable_text(before + symbol + rest),
    ensures
        compound_of::<A>(before + symbol + rest) == Err::<Substance<A::Number>, FormulaFault>(
            FormulaFault::UnknownElement(symbol),
        ),
{
    let text = before + symbol + rest;
    let at = before.len() as int;
    assert(text[at] == symbol[0]);
    if symbol.len() == 2 {
        assert(text[at + 1] == symbol[1]);
    } else if rest.len() > 0 {
        assert(text[at + 1] == rest[0]);
    }
    assert(symbol_end(text, at) == at + symbol.len());
    assert(text.subrange(at, at + symbol.len()) == symbol);
    assert(embedded(before, text, 0));
    lemma_reading_reaches::<A>(before, text);
}

/// Law: an element behind a formula, or alone, with a count that is none is refused, and the refusal
/// says what is wrong: the number cannot be read, it is not finite and positive, a slash is followed
/// by no number, or a number has a second decimal point.
#[verifier::rlimit(30)]
pub proof fn law_bad_count_is_named<A: Arithmetic>(
    before: Seq<char>,
    symbol: Seq<char>,
    number: Seq<char>,
    rest: Seq<char>,
)
    requires
        formula_so_far::<A>(before),
        symbol_form(symbol),
        weight_of::<Machine<A>>(symbol) is Some,
        plain_number(number),
        readable_text(before + symbol + number + rest),
    ensures
        ({
            let result = compound_of::<A>(before + symbol + number + rest);
            let ends = rest.len() > 0 ==> !ascii_digit(rest[0]) && rest[0] != '.';
            let value = A::numeral(number);
            let positive = value is Some && A::finite(value->0) && !A::at_most(
                value->0,
                A::integer(0),
            );
            &&& ends && value is None ==> result == Err::<Substance<A::Number>, FormulaFault>(
                FormulaFault::UnreadableNumber,
            )
            &&& ends && value is Some && !positive ==> result == Err::<
                Substance<A::Number>,
                FormulaFault,
            >(FormulaFault::NotPositive)
            &&& positive && rest.len() > 0 && rest[0] == '/' && (rest.len() > 1 ==> !ascii_digit(
                rest[1],
            )) ==> result == Err::<Substance<A::Number>, FormulaFault>(
                FormulaFault::MissingDenominator,
            )
            &&& number.contains('.') && rest.len() > 1 && rest[0] == '.' && ascii_digit(rest[1])
                ==> result == Err::<Substance<A::Number>, FormulaFault>(
                FormulaFault::TooManyPoints,
            )
        }),
{
    let text = before + symbol + number + rest;
    let at = before.len() as int;
    let j = at + symbol.len();
    let end = j + number.len();
    lemma_plain_number(number);
    assert(text[at] == symbol[0]);
    if symbol.len() == 2 {
        assert(text[at + 1] == symbol[1]);
    }
    assert(text[j] == number[0]);
    assert(symbol_end(text, at) == j);
    assert(text.subrange(at, j) == symbol);
    assert(embedded(before, text, 0));
    lemma_reading_reaches::<A>(before, text);
    assert(embedded(number, text, j));
    if rest.len() > 0 {
        assert(text[end] == rest[0]);
    }
    if rest.len() > 1 {
        assert(text[end + 1] == rest[1]);
    }
    if rest.len() > 0 ==> !ascii_digit(rest[0]) && rest[0] != '.' {
        lemma_decimal_embedded::<A>(number, text, j, 0);
        assert(number.subrange(0, number.len() as int) == number);
        if rest.len() > 0 && rest[0] == '/' && (rest.len() > 1 ==> !ascii_digit(rest[1])) {
            assert(digits_end(text, end + 1) == end + 1);
        }
    }
    if number.contains('.') && rest.len() > 1 && rest[0] == '.' && ascii_digit(rest[1]) {
        let p = choose|p: int| 0 <= p < number.len() && number[p] == '.';
        assert(!ascii_digit(number[p]));
        let k = choose|k: int|
            0 < k < number.len() - 1 && #[trigger] number[k] == '.' && all_digits(number.take(k))
                && all_digits(number.skip(k + 1));
        let front = number.take(k);
        let back = number.skip(k + 1);
        assert forall|i: int| j <= i < j + k implies ascii_digit(#[trigger] text[i]) by {
            assert(text[i] == number[i - j]);
            assert(ascii_digit(front[i - j]));
        }
        assert forall|i: int| j + k < i < end implies ascii_digit(#[trigger] text[i]) by {
            assert(text[i] == number[i - j]);
            assert(ascii_digit(back[i - j - k - 1]));
        }
        assert(text[j + k] == number[k]);
        lemma_digits_run(text, j, j + k);
        assert(ascii_digit(text[j + k + 1]));
        lemma_digits_run(text, j + k + 1, end);
        assert(decimal_end(text, j) is None);
    }
}

/// Law: a bracket that is opened and not closed is refused, and so is one that is closed by a
/// bracket of another kind.
pub proof fn law_bad_bracket_is_named<A: Arithmetic>(
    before: Seq<char>,
    open: char,
    inside: Seq<char>,
    rest: Seq<char>,
)
    requires
        formula_so_far::<A>(before),
        seq!['(', '[', '{'].contains(open),
        formula_so_far::<A>(inside),
        readable_text(before + seq![open] + inside + rest),
    ensures
        rest.len() == 0 ==> compound_of::<A>(before + seq![open] + inside + rest) == Err::<
            Substance<A::Number>,
            FormulaFault,
        >(FormulaFault::UnclosedBracket),
        rest.len() > 0 && seq![')', ']', '}'].contains(rest[0]) && !matching(open, rest[0])
            ==> compound_of::<A>(before + seq![open] + inside + rest) == Err::<
            Substance<A::Number>,
            FormulaFault,
        >(FormulaFault::MismatchedBracket),
{
    let text = before + seq![open] + inside + rest;
    let at = before.len() as int;
    law_brackets_pair(open, closing_of(open));
    assert(text[at] == open);
    assert(embedded(before, text, 0));
    assert(embedded(inside, text, at + 1)) by {
        assert forall|k: int| 0 <= k < inside.len() implies #[trigger] inside[k] == text[at + 1
            + k] by {}
    }
    if rest.len() > 0 {
        assert(text[at + 1 + inside.len()] == rest[0]);
        law_brackets_pair(rest[0], rest[0]);
        law_brackets_pair(open, rest[0]);
    }
    if rest.len() == 0 || (seq![')', ']', '}'].contains(rest[0]) && !matching(open, rest[0])) {
        lemma_bracket_left_open::<A>(before, open, inside, text, at + 1 + inside.len());
    }
}

proof fn lemma_bracket_left_open<A: Arithmetic>(
    before: Seq<char>,
    open: char,
    inside: Seq<char>,
    text: Seq<char>,
    end: int,
)
    requires
        formula_so_far::<A>(before),
        opening_bracket(open),
        formula_so_far::<A>(inside),
        readable_text(text),
        embedded(before, text, 0),
        before.len() < text.len(),
        text[before.len() as int] == open,
        embedded(inside, text, before.len() as int + 1),
        end == before.len() + 1 + inside.len(),
        end < text.len() ==> closing_bracket(text[end]) && text[end] != closing_of(open),
    ensures
        compound_of::<A>(text) == Err::<Substance<A::Number>, FormulaFault>(
            if end < text.len() {
                FormulaFault::MismatchedBracket
            } else {
                FormulaFault::UnclosedBracket
            },
        ),
{
    let at = before.len() as int;
    let stop = Some(closing_of(open));
    let none = Seq::<(Seq<char>, A::Number)>::empty();
    lemma_reading_reaches::<A>(before, text);
    if inside.len() > 0 {
        law_compound::<A>(inside);
        lemma_group_bounds::<A>(inside, 0, none, None);
        lemma_group_goes_on::<A>(inside, text, at + 1, 0, none, None, stop);
    }
    assert(group_at::<A>(text, at + 1, none, stop) is Err);
}

/// Whether two brackets are the two of a pair.
pub open spec fn matching(open: char, close: char) -> bool {
    ||| open == '(' && close == ')'
    ||| open == '[' && close == ']'
    ||| open == '{' && close == '}'
}

/// Law: the brackets that group are the round, the square and the curly ones, and each is closed by
/// the one of its pair.
pub proof fn law_brackets_pair(c: char, other: char)
    ensures
        opening_bracket(c) <==> seq!['(', '[', '{'].contains(c),
        closing_bracket(c) <==> seq![')', ']', '}'].contains(c),
        opening_bracket(c) ==> (closing_of(c) == other <==> matching(c, other)),
{
    let opening = seq!['(', '[', '{'];
    let closing = seq![')', ']', '}'];
    assert(opening[0] == '(' && opening[1] == '[' && opening[2] == '{');
    assert(closing[0] == ')' && closing[1] == ']' && closing[2] == '}');
}

/// Law: the molar mass of a compound is the sum, over its elements in their order, of the weight of
/// the element times its count; and each element is listed with the count that is looked up for it.
pub proof fn law_molar_mass_is_the_sum<A: Arithmetic>(text: Seq<char>)
    ensures
        compound_of::<A>(text) matches Ok(compound) ==> {
            &&& compound.molar_mass == compound.atoms.fold_left(
                A::integer(0),
                |mass: A::Number, atom: (Seq<char>, A::Number)|
                    A::sum(mass, A::product(weight_of::<Machine<A>>(atom.0)->0, atom.1)),
            )
            &&& forall|i: int|
                0 <= i < compound.atoms.len() ==> count_in(
                    compound.atoms,
                    (#[trigger] compound.atoms[i]).0,
                ) == Some(compound.atoms[i].1)
        },
{
    law_compound::<A>(text);
    if let Ok(compound) = compound_of::<A>(text) {
        lemma_mass_folds::<A>(compound.atoms);
        assert forall|i: int| 0 <= i < compound.atoms.len() implies count_in(
            compound.atoms,
            (#[trigger] compound.atoms[i]).0,
        ) == Some(compound.atoms[i].1) by {
            lemma_count_at_its_place(compound.atoms, i);
        }
    }
}

proof fn lemma_mass_folds<A: Arithmetic>(atoms: Seq<(Seq<char>, A::Number)>)
    ensures
        mass_of::<Machine<A>>(atoms) matches Ok(mass) ==> mass == atoms.fold_left(
            A::integer(0),
            |mass: A::Number, atom: (Seq<char>, A::Number)|
                A::sum(mass, A::product(weight_of::<Machine<A>>(atom.0)->0, atom.1)),
        ),
    decreases atoms.len(),
{
    if atoms.len() > 0 {
        lemma_mass_folds::<A>(atoms.drop_last());
    }
}

proof fn lemma_count_at_its_place<N>(atoms: Seq<(Seq<char>, N)>, i: int)
    requires
        ordered(atoms),
        0 <= i < atoms.len(),
    ensures
        count_in(atoms, atoms[i].0) == Some(atoms[i].1),
    decreases atoms.len(),
{
    if i > 0 {
        let rest = atoms.drop_first();
        assert(precedes(atoms[0].0, atoms[i].0));
        if atoms[0].0 == atoms[i].0 {
            lemma_precedes_irreflexive(atoms[0].0);
        }
        assert forall|a: int, b: int| 0 <= a < b < rest.len() implies precedes(
            (#[trigger] rest[a]).0,
            (#[trigger] rest[b]).0,
        ) by {
            assert(precedes(atoms[a + 1].0, atoms[b + 1].0));
        }
        assert(rest[i - 1] == atoms[i]);
        lemma_count_at_its_place(rest, i - 1);
    }
}

/// Law: brackets with nothing in them, with or without a count, add nothing to a formula; alone they
/// hold no element, and are refused for that.
pub proof fn law_empty_brackets_hold_nothing<A: Arithmetic>(
    before: Seq<char>,
    open: char,
    count: Seq<char>,
    value: A::Number,
)
    requires
        formula_so_far::<A>(before),
        opening_bracket(open),
        writes_count::<A>(count, value),
    ensures
        before.len() > 0 ==> (compound_of::<A>(before + bracketed(open, Seq::empty(), count))
            matches Ok(whole) && whole.atoms == atoms_so_far::<A>(before)),
        before.len() == 0 ==> compound_of::<A>(before + bracketed(open, Seq::empty(), count))
            == Err::<Substance<A::Number>, FormulaFault>(FormulaFault::NoElements),
{
    let nothing = Seq::<char>::empty();
    let none = Seq::<(Seq<char>, A::Number)>::empty();
    let text = before + bracketed(open, nothing, count);
    let at = before.len() as int;
    let close = closing_of(open);
    let front = before + (seq![open] + nothing + seq![close]);
    let atoms = atoms_so_far::<A>(before);
    assert(text == front + count);
    lemma_count_is_read::<A>(front, count, value);
    assert(text[at] == open);
    assert(text[at + 1] == close);
    assert(group_at::<A>(text, at + 1, none, Some(close)) == Ok::<
        (Seq<(Seq<char>, A::Number)>, int),
        FormulaFault,
    >((none, at + 2)));
    assert(with_group::<Machine<A>>(atoms, none, value) == atoms);
    assert(group_at::<A>(text, text.len() as int, atoms, None) == Ok::<
        (Seq<(Seq<char>, A::Number)>, int),
        FormulaFault,
    >((atoms, text.len() as int)));
    assert(group_at::<A>(text, at, atoms, None) == Ok::<
        (Seq<(Seq<char>, A::Number)>, int),
        FormulaFault,
    >((atoms, text.len() as int)));
    assert(embedded(before, text, 0));
    if count.len() > 0 {
        assert(text.last() == count.last());
    } else {
        assert(text.last() == close);
    }
    assert forall|k: int| at <= k < text.len() implies !hydrate_separator(#[trigger] text[k]) by {
        if k > at + 1 {
            assert(text[k] == count[k - at - 2]);
        }
    }
    law_compound::<A>(before);
    if before.len() > 0 {
        lemma_read_as_a_whole::<A>(before, text, atoms);
    } else {
        lemma_empty_is_no_compound::<A>(before);
        let drop = |c: char| white_space(c);
        assert(trim_start(text, drop) == text);
        assert(trim_end(text, drop) == text);
        assert(trim(text) == text);
        assert(atoms == none);
    }
}

} // verus!
