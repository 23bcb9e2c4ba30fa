//! What holds of the formulas that are guessed from the names of materials.

use vstd::prelude::*;

use crate::advice::{organic, organic_element};
use crate::arithmetic::{Arithmetic, Machine};
use crate::bracket_laws::decimal_literal;
use crate::conversation::{filler, named_material, plain_name};
use crate::conversation_laws::lemma_trimmed;
use crate::elements::weight_of;
use crate::formula::{closing_bracket, closing_of, compound_of, count_at, decimal_at, digits_end, group_at, hydrate_separator, opening_bracket, symbol_end, with_count, with_group};
use crate::formula_laws::{law_known_elements_have_mass, lemma_group_atoms};
use crate::text::{ascii_digit, ascii_uppercase, lower_case, lower_char, precedes, trim, trim_end, trim_start, white_space};
use crate::weighing::keys;

verus! {

/// Whether a text is a short decimal number other than zero.
pub open spec fn short_count(text: Seq<char>) -> bool {
    &&& decimal_literal(text)
    &&& text.len() <= 8
    &&& exists|k: int| 0 <= k < text.len() && '1' <= #[trigger] text[k] <= '9'
}

/// Whether an arithmetic reads a text as a count: a number that is finite and more than zero.
pub open spec fn reads_count<A: Arithmetic>(text: Seq<char>) -> bool {
    A::numeral(text) matches Some(value) && A::finite(value) && !A::at_most(value, A::integer(0))
}

/// Whether an arithmetic reads all short decimal numbers other than zero as counts.
pub open spec fn reads_short_counts<A: Arithmetic>() -> bool {
    forall|text: Seq<char>| #[trigger] short_count(text) ==> reads_count::<A>(text)
}

proof fn lemma_digits_run(chars: Seq<char>, i: int, end: int)
    requires
        0 <= i <= end <= chars.len(),
        forall|k: int| i <= k < end ==> ascii_digit(#[trigger] chars[k]),
        end < chars.len() ==> !ascii_digit(chars[end]),
    ensures
        digits_end(chars, i) == end,
    decreases end - i,
{
    if i < end {
        assert(ascii_digit(chars[i]));
        lemma_digits_run(chars, i + 1, end);
    }
}

/// A whole number that stands in a text is read.
proof fn lemma_whole_number<A: Arithmetic>(chars: Seq<char>, i: int, end: int)
    requires
        reads_short_counts::<A>(),
        0 <= i < end <= chars.len(),
        end - i <= 8,
        forall|k: int| i <= k < end ==> ascii_digit(#[trigger] chars[k]),
        chars[i] != '0',
        end < chars.len() ==> !ascii_digit(chars[end]) && chars[end] != '.',
    ensures
        decimal_at::<A>(chars, i) matches Ok((Some(value), stop)) && stop == end && !A::at_most(
            value,
            A::integer(0),
        ),
{
    let text = chars.subrange(i, end);
    lemma_digits_run(chars, i, end);
    assert forall|k: int| 0 <= k < text.len() implies ascii_digit(#[trigger] text[k]) by {
        assert(ascii_digit(chars[i + k]));
    }
    lemma_digits_run(text, 0, text.len() as int);
    assert('1' <= text[0] <= '9');
    assert(short_count(text));
    assert(reads_count::<A>(text));
}

/// A decimal number that stands in a text is read.
proof fn lemma_decimal_number<A: Arithmetic>(chars: Seq<char>, i: int, point: int, end: int)
    requires
        reads_short_counts::<A>(),
        0 <= i < point,
        point + 1 < end <= chars.len(),
        end - i <= 8,
        forall|k: int| i <= k < end && k != point ==> ascii_digit(#[trigger] chars[k]),
        chars[point] == '.',
        chars[end - 1] != '0',
        end < chars.len() ==> !ascii_digit(chars[end]) && chars[end] != '.',
    ensures
        decimal_at::<A>(chars, i) matches Ok((Some(value), stop)) && stop == end,
{
    let text = chars.subrange(i, end);
    let p = point - i;
    lemma_digits_run(chars, i, point);
    assert(ascii_digit(chars[point + 1]));
    lemma_digits_run(chars, point + 1, end);
    assert forall|k: int| 0 <= k < text.len() && k != p implies ascii_digit(#[trigger] text[k]) by {
        assert(ascii_digit(chars[i + k]));
    }
    assert(text[p] == '.');
    lemma_digits_run(text, 0, p);
    assert(ascii_digit(text[p + 1]));
    lemma_digits_run(text, p + 1, text.len() as int);
    assert(ascii_digit(chars[end - 1]));
    assert('1' <= text[text.len() - 1] <= '9');
    assert(short_count(text));
    assert(reads_count::<A>(text));
}

/// Whether some element counts hold all elements that others hold.
spec fn keeps<N>(atoms: Seq<(Seq<char>, N)>, more: Seq<(Seq<char>, N)>) -> bool {
    forall|element: Seq<char>| #[trigger]
        keys(atoms).contains(element) ==> keys(more).contains(element)
}

proof fn lemma_with_count_keeps<A: Arithmetic>(
    atoms: Seq<(Seq<char>, A::Number)>,
    element: Seq<char>,
    count: A::Number,
)
    ensures
        keeps(atoms, with_count::<Machine<A>>(atoms, element, count)),
        keys(with_count::<Machine<A>>(atoms, element, count)).contains(element),
    decreases atoms.len(),
{
    let more = with_count::<Machine<A>>(atoms, element, count);
    if atoms.len() == 0 {
        assert(keys(more)[0] == element);
    } else {
        let last = atoms.last();
        let front = atoms.drop_last();
        if !precedes(last.0, element) && last.0 != element {
            lemma_with_count_keeps::<A>(front, element, count);
            let placed = with_count::<Machine<A>>(front, element, count);
            let k = choose|k: int| 0 <= k < keys(placed).len() && keys(placed)[k] == element;
            assert(keys(more)[k] == element);
            assert forall|e: Seq<char>| #[trigger] keys(atoms).contains(e) implies keys(
                more,
            ).contains(e) by {
                let i = choose|i: int| 0 <= i < keys(atoms).len() && keys(atoms)[i] == e;
                if i < front.len() {
                    assert(keys(front)[i] == e);
                    assert(keys(front).contains(e));
                    let m = choose|m: int| 0 <= m < keys(placed).len() && keys(placed)[m] == e;
                    assert(keys(more)[m] == e);
                } else {
                    assert(keys(more)[placed.len() as int] == e);
                }
            }
        } else {
            assert(keys(more)[more.len() - 1] == element);
            assert forall|e: Seq<char>| #[trigger] keys(atoms).contains(e) implies keys(
                more,
            ).contains(e) by {
                let i = choose|i: int| 0 <= i < keys(atoms).len() && keys(atoms)[i] == e;
                assert(keys(more)[i] == e);
            }
        }
    }
}

proof fn lemma_with_group_keeps<A: Arithmetic>(
    atoms: Seq<(Seq<char>, A::Number)>,
    group: Seq<(Seq<char>, A::Number)>,
    multiplier: A::Number,
)
    ensures
        keeps(atoms, with_group::<Machine<A>>(atoms, group, multiplier)),
    decreases group.len(),
{
    if group.len() > 0 {
        let before = with_group::<Machine<A>>(atoms, group.drop_last(), multiplier);
        lemma_with_group_keeps::<A>(atoms, group.drop_last(), multiplier);
        lemma_with_count_keeps::<A>(
            before,
            group.last().0,
            A::product(group.last().1, multiplier),
        );
    }
}

/// Whether reading on from an index succeeds, ends at `end`, and loses no element.
spec fn reaches<A: Arithmetic>(chars: Seq<char>, i: int, stop: Option<char>, end: int) -> bool {
    forall|atoms: Seq<(Seq<char>, A::Number)>|
        (#[trigger] group_at::<A>(chars, i, atoms, stop)) matches Ok((found, behind)) && behind
            == end && keeps(atoms, found)
}

/// An element and its count are read, and then the rest.
proof fn lemma_element_reaches<A: Arithmetic>(
    chars: Seq<char>,
    i: int,
    stop: Option<char>,
    end: int,
)
    requires
        0 <= i < chars.len(),
        ascii_uppercase(chars[i]),
        weight_of::<Machine<A>>(chars.subrange(i, symbol_end(chars, i))) is Some,
        count_at::<A>(chars, symbol_end(chars, i)) matches Ok((_, next)) && i < next <= chars.len()
            && reaches::<A>(chars, next, stop, end),
    ensures
        reaches::<A>(chars, i, stop, end),
{
    if let Ok((count, next)) = count_at::<A>(chars, symbol_end(chars, i)) {
        let symbol = chars.subrange(i, symbol_end(chars, i));
        assert forall|atoms: Seq<(Seq<char>, A::Number)>|
            (#[trigger] group_at::<A>(chars, i, atoms, stop)) matches Ok((found, behind)) && behind
                == end && keeps(atoms, found) by {
            let more = with_count::<Machine<A>>(atoms, symbol, count);
            lemma_with_count_keeps::<A>(atoms, symbol, count);
            assert(group_at::<A>(chars, i, atoms, stop) == group_at::<A>(chars, next, more, stop));
        }
    }
}

/// A bracket and its count are read, and then the rest.
proof fn lemma_bracket_reaches<A: Arithmetic>(
    chars: Seq<char>,
    i: int,
    close: int,
    stop: Option<char>,
    end: int,
)
    requires
        0 <= i < chars.len(),
        opening_bracket(chars[i]),
        reaches::<A>(chars, i + 1, Some(closing_of(chars[i])), close),
        count_at::<A>(chars, close) matches Ok((_, next)) && i < next <= chars.len() && reaches::<
            A,
        >(chars, next, stop, end),
    ensures
        reaches::<A>(chars, i, stop, end),
{
    let inner = group_at::<A>(chars, i + 1, Seq::empty(), Some(closing_of(chars[i])));
    if let Ok((multiplier, next)) = count_at::<A>(chars, close) {
        if let Ok((group, behind)) = inner {
            assert forall|atoms: Seq<(Seq<char>, A::Number)>|
                (#[trigger] group_at::<A>(chars, i, atoms, stop)) matches Ok((found, last)) && last
                    == end && keeps(atoms, found) by {
                let more = with_group::<Machine<A>>(atoms, group, multiplier);
                lemma_with_group_keeps::<A>(atoms, group, multiplier);
                assert(group_at::<A>(chars, i, atoms, stop) == group_at::<A>(
                    chars,
                    next,
                    more,
                    stop,
                ));
            }
        }
    }
}

/// The end of the text, or of a group.
proof fn lemma_end_reaches<A: Arithmetic>(chars: Seq<char>)
    ensures
        reaches::<A>(chars, chars.len() as int, None, chars.len() as int),
        forall|i: int|
            0 <= i < chars.len() && closing_bracket(#[trigger] chars[i]) ==> reaches::<A>(
                chars,
                i,
                Some(chars[i]),
                i + 1,
            ),
{
}

/// A text that is read to its end, without white space or separators, and starting with lithium,
/// is the formula of an inorganic material.
proof fn lemma_lithium_formula<A: Arithmetic>(text: Seq<char>, next: int)
    requires
        text.len() >= 2,
        text[0] == 'L',
        text[1] == 'i',
        !white_space(text.last()),
        forall|i: int| 0 <= i < text.len() ==> !hydrate_separator(#[trigger] text[i]),
        count_at::<A>(text, 2) matches Ok((_, behind)) && behind == next,
        0 < next <= text.len(),
        reaches::<A>(text, next, None, text.len() as int),
    ensures
        compound_of::<A>(text) matches Ok(compound) && compound.formula == text && !organic(
            compound,
        ),
{
    reveal_strlit("Li");
    reveal_strlit("C");
    reveal_strlit("H");
    reveal_strlit("O");
    reveal_strlit("N");
    reveal_strlit("S");
    reveal_strlit("P");
    reveal_strlit("Cl");
    reveal_strlit("Br");
    reveal_strlit("I");
    let symbol = "Li"@;
    assert(text.subrange(0, 2) == symbol);
    assert(trim(text) == text) by {
        let drop = |c: char| white_space(c);
        assert(trim_start(text, drop) == text);
        assert(trim_end(text, drop) == text);
    }
    if let Ok((count, behind)) = count_at::<A>(text, 2) {
        let first = with_count::<Machine<A>>(Seq::empty(), symbol, count);
        lemma_with_count_keeps::<A>(Seq::empty(), symbol, count);
        assert(weight_of::<Machine<A>>(symbol) is Some);
        assert(group_at::<A>(text, 0, Seq::empty(), None) == group_at::<A>(
            text,
            next,
            first,
            None,
        ));
        lemma_group_atoms::<A>(text, 0, Seq::empty(), None);
        if let Ok((atoms, _)) = group_at::<A>(text, next, first, None) {
            assert(keys(first).contains(symbol));
            assert(keys(atoms).contains(symbol));
            let k = choose|k: int| 0 <= k < keys(atoms).len() && keys(atoms)[k] == symbol;
            assert(atoms[k].0 == symbol);
            law_known_elements_have_mass::<Machine<A>>(atoms);
            assert(!organic_element(symbol)) by {
                assert(symbol[0] == 'L');
            }
        }
    }
}

proof fn lemma_lfp<A: Arithmetic>()
    requires
        reads_short_counts::<A>(),
    ensures
        compound_of::<A>("LiFePO4"@) matches Ok(compound) && compound.formula == "LiFePO4"@ && !organic(
            compound,
        ),
{
    let text = "LiFePO4"@;
    let n = text.len() as int;
    reveal_strlit("LiFePO4");
    reveal_strlit("Fe");
    reveal_strlit("Li");
    reveal_strlit("O");
    reveal_strlit("P");
    lemma_end_reaches::<A>(text);
    lemma_whole_number::<A>(text, 6, 7);
    assert(text.subrange(5, 6) == "O"@);
    lemma_element_reaches::<A>(text, 5, None, n);
    assert(text.subrange(4, 5) == "P"@);
    lemma_element_reaches::<A>(text, 4, None, n);
    assert(text.subrange(2, 4) == "Fe"@);
    lemma_element_reaches::<A>(text, 2, None, n);
    lemma_lithium_formula::<A>(text, 2);
}

proof fn lemma_nmc111<A: Arithmetic>()
    requires
        reads_short_counts::<A>(),
    ensures
        compound_of::<A>("LiNi1/3Co1/3Mn1/3O2"@) matches Ok(compound) && compound.formula == "LiNi1/3Co1/3Mn1/3O2"@ && !organic(
            compound,
        ),
{
    let text = "LiNi1/3Co1/3Mn1/3O2"@;
    let n = text.len() as int;
    reveal_strlit("LiNi1/3Co1/3Mn1/3O2");
    reveal_strlit("Co");
    reveal_strlit("Li");
    reveal_strlit("Mn");
    reveal_strlit("Ni");
    reveal_strlit("O");
    lemma_end_reaches::<A>(text);
    lemma_whole_number::<A>(text, 18, 19);
    assert(text.subrange(17, 18) == "O"@);
    lemma_element_reaches::<A>(text, 17, None, n);
    lemma_whole_number::<A>(text, 14, 15);
    lemma_whole_number::<A>(text, 16, 17);
    assert(text.subrange(12, 14) == "Mn"@);
    lemma_element_reaches::<A>(text, 12, None, n);
    lemma_whole_number::<A>(text, 9, 10);
    lemma_whole_number::<A>(text, 11, 12);
    assert(text.subrange(7, 9) == "Co"@);
    lemma_element_reaches::<A>(text, 7, None, n);
    lemma_whole_number::<A>(text, 4, 5);
    lemma_whole_number::<A>(text, 6, 7);
    assert(text.subrange(2, 4) == "Ni"@);
    lemma_element_reaches::<A>(text, 2, None, n);
    lemma_lithium_formula::<A>(text, 2);
}

proof fn lemma_nmc532<A: Arithmetic>()
    requires
        reads_short_counts::<A>(),
    ensures
        compound_of::<A>("LiNi0.5Co0.3Mn0.2O2"@) matches Ok(compound) && compound.formula == "LiNi0.5Co0.3Mn0.2O2"@ && !organic(
            compound,
        ),
{
    let text = "LiNi0.5Co0.3Mn0.2O2"@;
    let n = text.len() as int;
    reveal_strlit("LiNi0.5Co0.3Mn0.2O2");
    reveal_strlit("Co");
    reveal_strlit("Li");
    reveal_strlit("Mn");
    reveal_strlit("Ni");
    reveal_strlit("O");
    lemma_end_reaches::<A>(text);
    lemma_whole_number::<A>(text, 18, 19);
    assert(text.subrange(17, 18) == "O"@);
    lemma_element_reaches::<A>(text, 17, None, n);
    lemma_decimal_number::<A>(text, 14, 15, 17);
    assert(text.subrange(12, 14) == "Mn"@);
    lemma_element_reaches::<A>(text, 12, None, n);
    lemma_decimal_number::<A>(text, 9, 10, 12);
    assert(text.subrange(7, 9) == "Co"@);
    lemma_element_reaches::<A>(text, 7, None, n);
    lemma_decimal_number::<A>(text, 4, 5, 7);
    assert(text.subrange(2, 4) == "Ni"@);
    lemma_element_reaches::<A>(text, 2, None, n);
    lemma_lithium_formula::<A>(text, 2);
}

proof fn lemma_nmc622<A: Arithmetic>()
    requires
        reads_short_counts::<A>(),
    ensures
        compound_of::<A>("LiNi0.6Co0.2Mn0.2O2"@) matches Ok(compound) && compound.formula == "LiNi0.6Co0.2Mn0.2O2"@ && !organic(
            compound,
        ),
{
    let text = "LiNi0.6Co0.2Mn0.2O2"@;
    let n = text.len() as int;
    reveal_strlit("LiNi0.6Co0.2Mn0.2O2");
    reveal_strlit("Co");
    reveal_strlit("Li");
    reveal_strlit("Mn");
    reveal_strlit("Ni");
    reveal_strlit("O");
    lemma_end_reaches::<A>(text);
    lemma_whole_number::<A>(text, 18, 19);
    assert(text.subrange(17, 18) == "O"@);
    lemma_element_reaches::<A>(text, 17, None, n);
    lemma_decimal_number::<A>(text, 14, 15, 17);
    assert(text.subrange(12, 14) == "Mn"@);
    lemma_element_reaches::<A>(text, 12, None, n);
    lemma_decimal_number::<A>(text, 9, 10, 12);
    assert(text.subrange(7, 9) == "Co"@);
    lemma_element_reaches::<A>(text, 7, None, n);
    lemma_decimal_number::<A>(text, 4, 5, 7);
    assert(text.subrange(2, 4) == "Ni"@);
    lemma_element_reaches::<A>(text, 2, None, n);
    lemma_lithium_formula::<A>(text, 2);
}

proof fn lemma_nmc811<A: Arithmetic>()
    requires
        reads_short_counts::<A>(),
    ensures
        compound_of::<A>("LiNi0.8Co0.1Mn0.1O2"@) matches Ok(compound) && compound.formula == "LiNi0.8Co0.1Mn0.1O2"@ && !organic(
            compound,
        ),
{
    let text = "LiNi0.8Co0.1Mn0.1O2"@;
    let n = text.len() as int;
    reveal_strlit("LiNi0.8Co0.1Mn0.1O2");
    reveal_strlit("Co");
    reveal_strlit("Li");
    reveal_strlit("Mn");
    reveal_strlit("Ni");
    reveal_strlit("O");
    lemma_end_reaches::<A>(text);
    lemma_whole_number::<A>(text, 18, 19);
    assert(text.subrange(17, 18) == "O"@);
    lemma_element_reaches::<A>(text, 17, None, n);
    lemma_decimal_number::<A>(text, 14, 15, 17);
    assert(text.subrange(12, 14) == "Mn"@);
    lemma_element_reaches::<A>(text, 12, None, n);
    lemma_decimal_number::<A>(text, 9, 10, 12);
    assert(text.subrange(7, 9) == "Co"@);
    lemma_element_reaches::<A>(text, 7, None, n);
    lemma_decimal_number::<A>(text, 4, 5, 7);
    assert(text.subrange(2, 4) == "Ni"@);
    lemma_element_reaches::<A>(text, 2, None, n);
    lemma_lithium_formula::<A>(text, 2);
}

proof fn lemma_latp<A: Arithmetic>()
    requires
        reads_short_counts::<A>(),
    ensures
        compound_of::<A>("Li1.3Al0.3Ti1.7(PO4)3"@) matches Ok(compound) && compound.formula == "Li1.3Al0.3Ti1.7(PO4)3"@ && !organic(
            compound,
        ),
{
    let text = "Li1.3Al0.3Ti1.7(PO4)3"@;
    let n = text.len() as int;
    reveal_strlit("Li1.3Al0.3Ti1.7(PO4)3");
    reveal_strlit("Al");
    reveal_strlit("Li");
    reveal_strlit("O");
    reveal_strlit("P");
    reveal_strlit("Ti");
    lemma_end_reaches::<A>(text);
    lemma_whole_number::<A>(text, 20, 21);
    assert(reaches::<A>(text, 19, Some(text[19]), 20));
    lemma_whole_number::<A>(text, 18, 19);
    assert(text.subrange(17, 18) == "O"@);
    lemma_element_reaches::<A>(text, 17, Some(')'), 20);
    assert(text.subrange(16, 17) == "P"@);
    lemma_element_reaches::<A>(text, 16, Some(')'), 20);
    lemma_bracket_reaches::<A>(text, 15, 20, None, n);
    lemma_decimal_number::<A>(text, 12, 13, 15);
    assert(text.subrange(10, 12) == "Ti"@);
    lemma_element_reaches::<A>(text, 10, None, n);
    lemma_decimal_number::<A>(text, 7, 8, 10);
    assert(text.subrange(5, 7) == "Al"@);
    lemma_element_reaches::<A>(text, 5, None, n);
    lemma_decimal_number::<A>(text, 2, 3, 5);
    lemma_lithium_formula::<A>(text, 5);
}

proof fn lemma_llzo<A: Arithmetic>()
    requires
        reads_short_counts::<A>(),
    ensures
        compound_of::<A>("Li7La3Zr2O12"@) matches Ok(compound) && compound.formula == "Li7La3Zr2O12"@ && !organic(
            compound,
        ),
{
    let text = "Li7La3Zr2O12"@;
    let n = text.len() as int;
    reveal_strlit("Li7La3Zr2O12");
    reveal_strlit("La");
    reveal_strlit("Li");
    reveal_strlit("O");
    reveal_strlit("Zr");
    lemma_end_reaches::<A>(text);
    lemma_whole_number::<A>(text, 10, 12);
    assert(text.subrange(9, 10) == "O"@);
    lemma_element_reaches::<A>(text, 9, None, n);
    lemma_whole_number::<A>(text, 8, 9);
    assert(text.subrange(6, 8) == "Zr"@);
    lemma_element_reaches::<A>(text, 6, None, n);
    lemma_whole_number::<A>(text, 5, 6);
    assert(text.subrange(3, 5) == "La"@);
    lemma_element_reaches::<A>(text, 3, None, n);
    lemma_whole_number::<A>(text, 2, 3);
    lemma_lithium_formula::<A>(text, 3);
}

proof fn lemma_lgps<A: Arithmetic>()
    requires
        reads_short_counts::<A>(),
    ensures
        compound_of::<A>("Li10GeP2S12"@) matches Ok(compound) && compound.formula == "Li10GeP2S12"@ && !organic(
            compound,
        ),
{
    let text = "Li10GeP2S12"@;
    let n = text.len() as int;
    reveal_strlit("Li10GeP2S12");
    reveal_strlit("Ge");
    reveal_strlit("Li");
    reveal_strlit("P");
    reveal_strlit("S");
    lemma_end_reaches::<A>(text);
    lemma_whole_number::<A>(text, 9, 11);
    assert(text.subrange(8, 9) == "S"@);
    lemma_element_reaches::<A>(text, 8, None, n);
    lemma_whole_number::<A>(text, 7, 8);
    assert(text.subrange(6, 7) == "P"@);
    lemma_element_reaches::<A>(text, 6, None, n);
    assert(text.subrange(4, 6) == "Ge"@);
    lemma_element_reaches::<A>(text, 4, None, n);
    lemma_whole_number::<A>(text, 2, 4);
    lemma_lithium_formula::<A>(text, 4);
}

/// Law: a formula that is guessed from a name is the formula of an inorganic material, in numbers
/// that read short decimal numbers as what they are.
pub proof fn law_guesses_are_formulas<A: Arithmetic>(input: Seq<char>)
    requires
        reads_short_counts::<A>(),
    ensures
        named_material(plain_name(input)) matches Some(formula) ==> (compound_of::<A>(formula)
            matches Ok(compound) && compound.formula == formula && !organic(compound)),
{
    lemma_lfp::<A>();
    lemma_nmc111::<A>();
    lemma_nmc532::<A>();
    lemma_nmc622::<A>();
    lemma_nmc811::<A>();
    lemma_latp::<A>();
    lemma_llzo::<A>();
    lemma_lgps::<A>();
}

/// Whether a text is another text apart from the case of ASCII letters and fillers that were put
/// in.
pub open spec fn respells(text: Seq<char>, name: Seq<char>) -> bool
    decreases text.len(),
{
    if text.len() == 0 {
        name.len() == 0
    } else {
        ||| name.len() > 0 && lower_char(text.last()) == lower_char(name.last()) && respells(
            text.drop_last(),
            name.drop_last(),
        )
        ||| filler(text.last()) && respells(text.drop_last(), name)
    }
}

/// A text without its fillers, in lower case.
spec fn bare(text: Seq<char>) -> Seq<char> {
    lower_case(text).filter(|c: char| !filler(c))
}

proof fn lemma_bare_push(text: Seq<char>, c: char)
    ensures
        bare(text.push(c)) == (if filler(c) {
            bare(text)
        } else {
            bare(text).push(lower_char(c))
        }),
{
    reveal(Seq::filter);
    let longer = lower_case(text.push(c));
    assert(longer.drop_last() == lower_case(text));
    assert(longer.last() == lower_char(c));
}

proof fn lemma_bare_first(text: Seq<char>)
    requires
        text.len() > 0,
        filler(text[0]),
    ensures
        bare(text.drop_first()) == bare(text),
    decreases text.len(),
{
    let rest = text.drop_first();
    if text.len() == 1 {
        assert(text == rest.push(text[0]));
        lemma_bare_push(rest, text[0]);
    } else {
        let c = text.last();
        lemma_bare_first(text.drop_last());
        assert(text == text.drop_last().push(c));
        assert(rest == text.drop_last().drop_first().push(c));
        lemma_bare_push(text.drop_last(), c);
        lemma_bare_push(text.drop_last().drop_first(), c);
    }
}

proof fn lemma_respelled_bare(text: Seq<char>, name: Seq<char>)
    requires
        respells(text, name),
    ensures
        bare(text) == bare(name),
    decreases text.len(),
{
    if text.len() == 0 {
        assert(text == name);
    } else {
        assert(text == text.drop_last().push(text.last()));
        lemma_bare_push(text.drop_last(), text.last());
        if filler(text.last()) && respells(text.drop_last(), name) {
            lemma_respelled_bare(text.drop_last(), name);
        } else {
            lemma_respelled_bare(text.drop_last(), name.drop_last());
            assert(name == name.drop_last().push(name.last()));
            lemma_bare_push(name.drop_last(), name.last());
        }
    }
}

/// White space that is no filler.
spec fn odd_space(c: char) -> bool {
    white_space(c) && !filler(c)
}

/// Whether other characters than white space stand on both sides of each odd white space.
spec fn spaces_inside(text: Seq<char>) -> bool {
    &&& forall|i: int|
        0 <= i < text.len() && odd_space(#[trigger] text[i]) ==> exists|k: int|
            0 <= k < i && !white_space(#[trigger] text[k])
    &&& forall|i: int|
        0 <= i < text.len() && odd_space(#[trigger] text[i]) ==> exists|k: int|
            i < k < text.len() && !white_space(#[trigger] text[k])
}

proof fn lemma_respelled_has_text(text: Seq<char>, name: Seq<char>)
    requires
        respells(text, name),
        name.len() > 0,
        !white_space(name[0]),
    ensures
        exists|k: int| 0 <= k < text.len() && !white_space(#[trigger] text[k]),
    decreases text.len(),
{
    let front = text.drop_last();
    if filler(text.last()) && respells(front, name) {
        lemma_respelled_has_text(front, name);
        let k = choose|k: int| 0 <= k < front.len() && !white_space(#[trigger] front[k]);
        assert(!white_space(text[k]));
    } else if name.len() == 1 {
        assert(!white_space(text[text.len() - 1]));
    } else {
        lemma_respelled_has_text(front, name.drop_last());
        let k = choose|k: int| 0 <= k < front.len() && !white_space(#[trigger] front[k]);
        assert(!white_space(text[k]));
    }
}

proof fn lemma_respelled_front(text: Seq<char>, name: Seq<char>)
    requires
        respells(text, name),
        name.len() > 0 ==> !white_space(name[0]),
    ensures
        forall|i: int|
            0 <= i < text.len() && odd_space(#[trigger] text[i]) ==> exists|k: int|
                0 <= k < i && !white_space(#[trigger] text[k]),
    decreases text.len(),
{
    if text.len() > 0 {
        let front = text.drop_last();
        let shorter = if filler(text.last()) && respells(front, name) {
            name
        } else {
            name.drop_last()
        };
        if shorter.len() > 0 {
            assert(shorter[0] == name[0]);
        }
        lemma_respelled_front(front, shorter);
        assert forall|i: int| 0 <= i < text.len() && odd_space(#[trigger] text[i]) implies exists|
            k: int,
        |
            0 <= k < i && !white_space(#[trigger] text[k]) by {
            if i < front.len() {
                assert(odd_space(front[i]));
                let k = choose|k: int| 0 <= k < i && !white_space(#[trigger] front[k]);
                assert(!white_space(text[k]));
            } else {
                assert(white_space(name.last()));
                lemma_respelled_has_text(front, shorter);
                let k = choose|k: int| 0 <= k < front.len() && !white_space(#[trigger] front[k]);
                assert(!white_space(text[k]));
            }
        }
    }
}

proof fn lemma_respelled_back(text: Seq<char>, name: Seq<char>)
    requires
        respells(text, name),
        name.len() > 0 ==> !white_space(name.last()),
    ensures
        forall|i: int|
            0 <= i < text.len() && odd_space(#[trigger] text[i]) ==> exists|k: int|
                i < k < text.len() && !white_space(#[trigger] text[k]),
    decreases text.len(),
{
    if text.len() > 0 {
        let front = text.drop_last();
        if filler(text.last()) && respells(front, name) {
            lemma_respelled_back(front, name);
            assert forall|i: int| 0 <= i < text.len() && odd_space(
                #[trigger] text[i],
            ) implies exists|k: int| i < k < text.len() && !white_space(#[trigger] text[k]) by {
                assert(odd_space(front[i]));
                let k = choose|k: int| i < k < front.len() && !white_space(#[trigger] front[k]);
                assert(!white_space(text[k]));
            }
        } else {
            assert(!white_space(text[text.len() - 1]));
        }
    }
}

/// Where no odd white space stands at the ends, trimming takes away fillers only.
proof fn lemma_trim_keeps_bare(text: Seq<char>)
    requires
        spaces_inside(text),
    ensures
        bare(trim(text)) == bare(text),
{
    let drop = |c: char| white_space(c);
    lemma_trim_start_keeps_bare(text);
    lemma_trim_end_keeps_bare(trim_start(text, drop));
}

proof fn lemma_trim_start_keeps_bare(text: Seq<char>)
    requires
        spaces_inside(text),
    ensures
        bare(trim_start(text, |c: char| white_space(c))) == bare(text),
        spaces_inside(trim_start(text, |c: char| white_space(c))),
    decreases text.len(),
{
    if text.len() > 0 && white_space(text[0]) {
        let rest = text.drop_first();
        assert(!odd_space(text[0]));
        lemma_bare_first(text);
        assert forall|i: int| 0 <= i < rest.len() && odd_space(#[trigger] rest[i]) implies exists|
            k: int,
        |
            0 <= k < i && !white_space(#[trigger] rest[k]) by {
            assert(odd_space(text[i + 1]));
            let k = choose|k: int| 0 <= k < i + 1 && !white_space(#[trigger] text[k]);
            assert(rest[k - 1] == text[k]);
        }
        assert forall|i: int| 0 <= i < rest.len() && odd_space(#[trigger] rest[i]) implies exists|
            k: int,
        |
            i < k < rest.len() && !white_space(#[trigger] rest[k]) by {
            assert(odd_space(text[i + 1]));
            let k = choose|k: int| i + 1 < k < text.len() && !white_space(#[trigger] text[k]);
            assert(rest[k - 1] == text[k]);
        }
        lemma_trim_start_keeps_bare(rest);
    }
}

proof fn lemma_trim_end_keeps_bare(text: Seq<char>)
    requires
        spaces_inside(text),
    ensures
        bare(trim_end(text, |c: char| white_space(c))) == bare(text),
    decreases text.len(),
{
    if text.len() > 0 && white_space(text.last()) {
        let front = text.drop_last();
        assert(!odd_space(text[text.len() - 1]));
        assert(text == front.push(text.last()));
        lemma_bare_push(front, text.last());
        assert forall|i: int| 0 <= i < front.len() && odd_space(#[trigger] front[i]) implies exists|
            k: int,
        |
            0 <= k < i && !white_space(#[trigger] front[k]) by {
            assert(odd_space(text[i]));
            let k = choose|k: int| 0 <= k < i && !white_space(#[trigger] text[k]);
            assert(front[k] == text[k]);
        }
        assert forall|i: int| 0 <= i < front.len() && odd_space(#[trigger] front[i]) implies exists|
            k: int,
        |
            i < k < front.len() && !white_space(#[trigger] front[k]) by {
            assert(odd_space(text[i]));
            let k = choose|k: int| i < k < text.len() && !white_space(#[trigger] text[k]);
            assert(front[k] == text[k]);
        }
        lemma_trim_end_keeps_bare(front);
    }
}

/// Law: the case of ASCII letters in a name does not matter, nor do spaces, hyphens and underscores
/// put into it: the same material is guessed.
pub proof fn law_spelling_does_not_matter(name: Seq<char>, text: Seq<char>)
    requires
        trim(name) == name,
        respells(text, name),
    ensures
        plain_name(text) == plain_name(name),
        named_material(plain_name(text)) == named_material(plain_name(name)),
{
    let drop = |c: char| white_space(c);
    lemma_respelled_bare(text, name);
    assert(name.len() > 0 ==> !white_space(name[0]) && !white_space(name.last())) by {
        lemma_trimmed(name, drop, |c: char| false);
    }
    lemma_respelled_front(text, name);
    lemma_respelled_back(text, name);
    lemma_trim_keeps_bare(text);
}

} // verus!
