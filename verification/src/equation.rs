//! Reaction equations in words.

use vstd::prelude::*;

use crate::arithmetic::{format_fixed, from_integer, is_below, lawful, magnitude, minus, over, rounded, Arithmetic};
use crate::formula::{Compound, Substance};
use crate::text::{all_digits, ascii_digit, chars_of, decimal, digit_value, join, join_strings, string_of, texts, trim_chars_end, trim_end};
use crate::weighing::{amounts_of, pairs, substances, Amount, WeighingResult};

verus! {

/// The difference below which a coefficient is written as a whole number.
pub open spec fn closeness<A: Arithmetic>() -> A::Number {
    A::quotient(A::integer(1), A::integer(10_000_000))
}

/// A coefficient: a whole number if it is close to one, else six decimals without the zeros at
/// the end.
pub open spec fn coefficient_text<A: Arithmetic>(value: A::Number) -> Seq<char> {
    let whole = A::nearest_integer(value);
    if A::below(A::size(A::difference(value, whole)), closeness::<A>()) {
        A::fixed_text(whole, 0)
    } else {
        trim_end(
            trim_end(A::fixed_text(value, 6), |c: char| c == '0'),
            |c: char| c == '.',
        )
    }
}

/// A term of a reaction equation. A coefficient close to one is left out.
pub open spec fn term_text<A: Arithmetic>(coefficient: A::Number, formula: Seq<char>) -> Seq<char> {
    if A::below(A::size(A::difference(coefficient, A::integer(1))), closeness::<A>()) {
        formula
    } else {
        coefficient_text::<A>(coefficient) + " "@ + formula
    }
}

/// The terms for the first `n` pairs of a compound and an amount; where `released`, only for
/// amounts that are more than nothing.
pub open spec fn terms<A: Arithmetic>(
    compounds: Seq<Substance<A::Number>>,
    amounts: Seq<Amount<A::Number>>,
    target_moles: A::Number,
    released: bool,
    n: int,
) -> Seq<Seq<char>>
    decreases n,
{
    if n <= 0 {
        Seq::empty()
    } else {
        let before = terms::<A>(compounds, amounts, target_moles, released, n - 1);
        let moles = amounts[n - 1].moles;
        if !released || A::below(A::integer(0), moles) {
            before.push(
                term_text::<A>(A::quotient(moles, target_moles), compounds[n - 1].formula),
            )
        } else {
            before
        }
    }
}

/// The terms for amounts, each under its own formula.
pub open spec fn share_terms<A: Arithmetic>(
    shares: Seq<Amount<A::Number>>,
    target_moles: A::Number,
) -> Seq<Seq<char>> {
    shares.map_values(
        |share: Amount<A::Number>|
            term_text::<A>(A::quotient(share.moles, target_moles), share.formula),
    )
}

/// The equation of a reaction, per mole of the target. Each compound is paired with the amount at
/// the same place; a byproduct of which nothing escapes is left out.
pub open spec fn equation_text<A: Arithmetic>(
    precursors: Seq<Substance<A::Number>>,
    used: Seq<Amount<A::Number>>,
    target: Substance<A::Number>,
    target_moles: A::Number,
    byproducts: Seq<Substance<A::Number>>,
    released: Seq<Amount<A::Number>>,
) -> Seq<char> {
    let reactants = terms::<A>(precursors, used, target_moles, false, pairs(precursors, used));
    let volatile = terms::<A>(
        byproducts,
        released,
        target_moles,
        true,
        pairs(byproducts, released),
    );
    join(reactants, " + "@) + " -> "@ + join(
        seq![term_text::<A>(A::integer(1), target.formula)] + volatile,
        " + "@,
    )
}

fn closeness_number<A: Arithmetic>() -> (r: A::Number)
    requires
        lawful::<A>(),
    ensures
        r == closeness::<A>(),
{
    over::<A>(from_integer::<A>(1), from_integer::<A>(10_000_000))
}

fn is_zero_digit(c: char) -> (r: bool)
    ensures
        r == (c == '0'),
{
    c == '0'
}

fn is_point(c: char) -> (r: bool)
    ensures
        r == (c == '.'),
{
    c == '.'
}

/// A coefficient in words.
pub fn format_coefficient<A: Arithmetic>(value: A::Number) -> (text: String)
    requires
        lawful::<A>(),
    ensures
        text@ == coefficient_text::<A>(value),
{
    let whole: A::Number = rounded::<A>(value);
    if is_below::<A>(magnitude::<A>(minus::<A>(value, whole)), closeness_number::<A>()) {
        return format_fixed::<A>(whole, 0);
    }
    let digits: Vec<char> = chars_of(format_fixed::<A>(value, 6).as_str());
    let shorter: Vec<char> = trim_chars_end(&digits, is_zero_digit, Ghost(|c: char| c == '0'));
    string_of(&trim_chars_end(&shorter, is_point, Ghost(|c: char| c == '.')))
}

/// A term of a reaction equation.
pub fn format_reaction_term<A: Arithmetic>(coefficient: A::Number, formula: &str) -> (text: String)
    requires
        lawful::<A>(),
    ensures
        text@ == term_text::<A>(coefficient, formula@),
{
    let excess: A::Number = minus::<A>(coefficient, from_integer::<A>(1));
    if is_below::<A>(magnitude::<A>(excess), closeness_number::<A>()) {
        formula.to_string()
    } else {
        let mut text: String = format_coefficient::<A>(coefficient);
        text.append(" ");
        text.append(formula);
        text
    }
}

fn append_terms<A: Arithmetic>(
    list: &mut Vec<String>,
    compounds: &[Compound<A::Number>],
    amounts: &[WeighingResult<A::Number>],
    target_moles: A::Number,
    released: bool,
)
    requires
        lawful::<A>(),
    ensures
        texts(final(list)@) == texts(old(list)@) + terms::<A>(
            substances(compounds@),
            amounts_of(amounts@),
            target_moles,
            released,
            pairs(substances(compounds@), amounts_of(amounts@)),
        ),
{
    let ghost start = texts(list@);
    let ghost all = substances(compounds@);
    let ghost shares = amounts_of(amounts@);
    let zero: A::Number = from_integer::<A>(0);
    let count: usize = if compounds.len() < amounts.len() {
        compounds.len()
    } else {
        amounts.len()
    };
    for i in 0..count
        invariant
            lawful::<A>(),
            count <= compounds@.len(),
            count <= amounts@.len(),
            zero == A::integer(0),
            all == substances(compounds@),
            shares == amounts_of(amounts@),
            texts(list@) == start + terms::<A>(all, shares, target_moles, released, i as int),
    {
        let ghost before = list@;
        assert(all[i as int] == compounds@[i as int]@);
        assert(shares[i as int] == amounts@[i as int]@);
        let moles: A::Number = amounts[i].moles;
        if !released || is_below::<A>(zero, moles) {
            let term: String = format_reaction_term::<A>(
                over::<A>(moles, target_moles),
                compounds[i].formula.as_str(),
            );
            list.push(term);
            assert(texts(list@) == texts(before).push(term@));
        }
    }
}

/// The equation of a reaction, per mole of the target.
pub fn format_reaction_equation<A: Arithmetic>(
    precursors: &[Compound<A::Number>],
    precursor_results: &[WeighingResult<A::Number>],
    target: &Compound<A::Number>,
    target_moles: A::Number,
    volatile_byproducts: &[Compound<A::Number>],
    volatile_results: &[WeighingResult<A::Number>],
) -> (text: String)
    requires
        lawful::<A>(),
    ensures
        text@ == equation_text::<A>(
            substances(precursors@),
            amounts_of(precursor_results@),
            target@,
            target_moles,
            substances(volatile_byproducts@),
            amounts_of(volatile_results@),
        ),
{
    let mut reactants: Vec<String> = Vec::new();
    append_terms::<A>(&mut reactants, precursors, precursor_results, target_moles, false);
    let mut products: Vec<String> = Vec::new();
    products.push(
        format_reaction_term::<A>(from_integer::<A>(1), target.formula.as_str()),
    );
    assert(texts(products@) == seq![term_text::<A>(A::integer(1), target@.formula)]);
    append_terms::<A>(&mut products, volatile_byproducts, volatile_results, target_moles, true);
    let mut text: String = join_strings(&reactants, " + ");
    text.append(" -> ");
    text.append(join_strings(&products, " + ").as_str());
    assert(texts(reactants@) == terms::<A>(
        substances(precursors@),
        amounts_of(precursor_results@),
        target_moles,
        false,
        pairs(substances(precursors@), amounts_of(precursor_results@)),
    ));
    text
}

/// What digits behind a decimal point are worth.
pub open spec fn fraction_value(digits: Seq<char>) -> real
    decreases digits.len(),
{
    if digits.len() == 0 {
        0real
    } else {
        (digit_value(digits[0]) as int as real + fraction_value(digits.drop_first())) / 10real
    }
}

/// A number in digits: its whole part, and its decimals if there are any.
pub open spec fn with_decimals(whole: Seq<char>, decimals: Seq<char>) -> Seq<char> {
    if decimals.len() == 0 {
        whole
    } else {
        whole + seq!['.'] + decimals
    }
}

/// A zero at the end of the decimals is worth nothing.
proof fn lemma_trailing_zero(digits: Seq<char>)
    ensures
        fraction_value(digits.push('0')) == fraction_value(digits),
    decreases digits.len(),
{
    let longer = digits.push('0');
    if digits.len() == 0 {
        assert(longer.drop_first() == Seq::<char>::empty());
        assert(fraction_value(longer.drop_first()) == 0real);
        assert(digit_value('0') == 0);
        assert(fraction_value(longer) == (0real + 0real) / 10real);
    } else {
        assert(longer[0] == digits[0]);
        assert(longer.drop_first() == digits.drop_first().push('0'));
        lemma_trailing_zero(digits.drop_first());
    }
}

/// Taking zeros off the end of the decimals changes neither what they are worth nor the whole part.
proof fn lemma_zeros_off(whole: Seq<char>, decimals: Seq<char>)
    requires
        all_digits(decimals),
    ensures
        ({
            let drop = |c: char| c == '0';
            let kept = trim_end(decimals, drop);
            &&& trim_end(whole + seq!['.'] + decimals, drop) == whole + seq!['.'] + kept
            &&& kept.is_prefix_of(decimals)
            &&& kept.len() > 0 ==> kept.last() != '0'
            &&& fraction_value(kept) == fraction_value(decimals)
        }),
    decreases decimals.len(),
{
    let drop = |c: char| c == '0';
    let text = whole + seq!['.'] + decimals;
    if decimals.len() == 0 {
        assert(text.last() == '.');
        assert(trim_end(decimals, drop) == decimals);
    } else {
        assert(text.last() == decimals.last());
        if decimals.last() == '0' {
            let front = decimals.drop_last();
            assert(text.drop_last() == whole + seq!['.'] + front);
            lemma_zeros_off(whole, front);
            lemma_trailing_zero(front);
            assert(front.push('0') == decimals);
            assert(trim_end(front, drop).is_prefix_of(decimals));
        }
    }
}

/// Law: the text of a coefficient denotes the coefficient. A value within a ten-millionth of a
/// whole number is written as that whole number, with all its digits. Any other value keeps its
/// whole part, and of its six decimals all but zeros at the end: what is written is worth what the
/// number with six decimals is worth.
pub proof fn law_coefficient_is_written<A: Arithmetic>(
    value: A::Number,
    n: u64,
    whole: Seq<char>,
    decimals: Seq<char>,
)
    ensures
        ({
            let nearest = A::nearest_integer(value);
            let close = A::below(
                A::size(A::difference(value, nearest)),
                A::quotient(A::integer(1), A::integer(10_000_000)),
            );
            let text = coefficient_text::<A>(value);
            &&& close ==> text == A::fixed_text(nearest, 0)
            &&& close && nearest == A::integer(n) && A::fixed_text(A::integer(n), 0) == decimal(
                n as nat,
            ) ==> text == decimal(n as nat)
            &&& !close && A::fixed_text(value, 6) == whole + seq!['.'] + decimals && decimals.len()
                == 6 && all_digits(decimals) && whole.len() > 0 && ascii_digit(whole.last())
                ==> exists|kept: Seq<char>|
                {
                    &&& text == #[trigger] with_decimals(whole, kept)
                    &&& kept.is_prefix_of(decimals)
                    &&& kept.len() > 0 ==> kept.last() != '0'
                    &&& fraction_value(kept) == fraction_value(decimals)
                }
        }),
{
    let zero = |c: char| c == '0';
    let point = |c: char| c == '.';
    if A::fixed_text(value, 6) == whole + seq!['.'] + decimals && decimals.len() == 6 && all_digits(
        decimals,
    ) && whole.len() > 0 && ascii_digit(whole.last()) {
        let kept = trim_end(decimals, zero);
        lemma_zeros_off(whole, decimals);
        let shorter = whole + seq!['.'] + kept;
        assert(trim_end(A::fixed_text(value, 6), zero) == shorter);
        if kept.len() == 0 {
            assert(shorter.last() == '.');
            assert(shorter.drop_last() == whole);
            assert(trim_end(whole, point) == whole);
        } else {
            assert(shorter.last() == kept.last());
            assert(kept.last() == decimals[kept.len() - 1]);
            assert(trim_end(shorter, point) == shorter);
        }
        assert(trim_end(shorter, point) == with_decimals(whole, kept));
    }
}

/// Law: a term names its compound, behind its coefficient and a space. A coefficient within a
/// ten-millionth of one is left out, and no other.
pub proof fn law_term_is_written<A: Arithmetic>(coefficient: A::Number, formula: Seq<char>)
    ensures
        ({
            let one = A::below(
                A::size(A::difference(coefficient, A::integer(1))),
                A::quotient(A::integer(1), A::integer(10_000_000)),
            );
            &&& one ==> term_text::<A>(coefficient, formula) == formula
            &&& !one ==> term_text::<A>(coefficient, formula) == coefficient_text::<A>(coefficient)
                + seq![' '] + formula
        }),
{
    reveal_strlit(" ");
    assert(" "@ == seq![' ']);
}

} // verus!
