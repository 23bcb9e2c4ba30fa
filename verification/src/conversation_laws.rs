//! What holds of the formulas and masses that are found in an input, and of what is guessed from a
//! name.

use vstd::prelude::*;

use crate::arithmetic::Arithmetic;
use crate::conversation::{candidate, closing_mark, confirmation, consent, ends_with, filler, first_mass, formula_edge, formula_pieces, formula_separator, formulas_in, is_formula, law_valid_formulas, mass_in, mass_in_word, mass_word, named_material, nothing_settled, plain_name, valid_formulas, wrapped, Settled};
use crate::formula::compound_of;
use crate::text::{ascii_digit, ascii_punctuation, digit_value, join, law_lower_case, law_trim_takes_the_ends, lower_case, split_where, trim, trim_end, trim_start, trim_where, white_space};

verus! {

/// Whether no character of a text satisfies a test.
pub open spec fn free_of(text: Seq<char>, test: spec_fn(char) -> bool) -> bool {
    forall|i: int| 0 <= i < text.len() ==> !test(#[trigger] text[i])
}

/// No piece holds a character at which the text was cut.
proof fn lemma_pieces_free(text: Seq<char>, cut: spec_fn(char) -> bool)
    ensures
        split_where(text, cut).len() > 0,
        forall|k: int|
            0 <= k < split_where(text, cut).len() ==> free_of(
                #[trigger] split_where(text, cut)[k],
                cut,
            ),
    decreases text.len(),
{
    if text.len() > 0 {
        lemma_pieces_free(text.drop_last(), cut);
        let before = split_where(text.drop_last(), cut);
        let now = split_where(text, cut);
        assert forall|k: int| 0 <= k < now.len() implies free_of(#[trigger] now[k], cut) by {
            if k < before.len() - 1 {
                assert(now[k] == before[k]);
                assert(free_of(before[k], cut));
            } else {
                assert(free_of(before[before.len() - 1], cut));
            }
        }
    }
}

/// What is left after trimming is free of what the text was free of, and has no character to trim
/// at its ends.
pub proof fn lemma_trimmed(text: Seq<char>, drop: spec_fn(char) -> bool, test: spec_fn(char) -> bool)
    requires
        free_of(text, test),
    ensures
        free_of(trim_where(text, drop), test),
        trim_where(text, drop).len() > 0 ==> !drop(trim_where(text, drop)[0]) && !drop(
            trim_where(text, drop).last(),
        ),
{
    lemma_trimmed_start(text, drop, test);
    lemma_trimmed_end(trim_start(text, drop), drop, test);
}

proof fn lemma_trimmed_start(
    text: Seq<char>,
    drop: spec_fn(char) -> bool,
    test: spec_fn(char) -> bool,
)
    requires
        free_of(text, test),
    ensures
        free_of(trim_start(text, drop), test),
        trim_start(text, drop).len() > 0 ==> !drop(trim_start(text, drop)[0]),
    decreases text.len(),
{
    if text.len() > 0 && drop(text[0]) {
        let rest = text.drop_first();
        assert forall|i: int| 0 <= i < rest.len() implies !test(#[trigger] rest[i]) by {
            assert(!test(text[i + 1]));
        }
        lemma_trimmed_start(rest, drop, test);
    }
}

proof fn lemma_trimmed_end(
    text: Seq<char>,
    drop: spec_fn(char) -> bool,
    test: spec_fn(char) -> bool,
)
    requires
        free_of(text, test),
        text.len() > 0 ==> !drop(text[0]),
    ensures
        free_of(trim_end(text, drop), test),
        trim_end(text, drop).len() > 0 ==> !drop(trim_end(text, drop)[0]) && !drop(
            trim_end(text, drop).last(),
        ),
    decreases text.len(),
{
    if text.len() > 0 && drop(text.last()) {
        let rest = text.drop_last();
        assert forall|i: int| 0 <= i < rest.len() implies !test(#[trigger] rest[i]) by {
            assert(!test(text[i]));
        }
        if rest.len() > 0 {
            assert(rest[0] == text[0]);
        }
        lemma_trimmed_end(rest, drop, test);
    }
}

/// A text with nothing to trim at its ends stays as it is.
proof fn lemma_nothing_to_trim(text: Seq<char>, drop: spec_fn(char) -> bool)
    requires
        text.len() > 0 ==> !drop(text[0]) && !drop(text.last()),
    ensures
        trim_where(text, drop) == text,
{
    assert(trim_start(text, drop) == text);
    assert(trim_end(text, drop) == text);
}

/// The formula in a piece is found again in itself, and is no more than one piece.
proof fn lemma_candidate_again(piece: Seq<char>)
    requires
        free_of(piece, |c: char| formula_separator(c)),
    ensures
        free_of(candidate(piece), |c: char| formula_separator(c)),
        candidate(candidate(piece)) == candidate(piece),
{
    let separator = |c: char| formula_separator(c);
    let space = |c: char| white_space(c);
    let edge = |c: char| formula_edge(c);
    assert forall|text: Seq<char>| free_of(text, separator) implies #[trigger] trim(text) == text by {
        if text.len() > 0 {
            assert(!separator(text[0]));
            assert(!separator(text[text.len() - 1]));
        }
        lemma_nothing_to_trim(text, space);
    }
    let bare = trim_where(piece, edge);
    lemma_trimmed(piece, edge, separator);
    assert(candidate(piece) == bare);
    lemma_nothing_to_trim(bare, edge);
}

/// Text without cuts lengthens the last piece.
proof fn lemma_split_longer(text: Seq<char>, more: Seq<char>, cut: spec_fn(char) -> bool)
    requires
        free_of(more, cut),
    ensures
        split_where(text, cut).len() > 0,
        split_where(text + more, cut) == split_where(text, cut).drop_last().push(
            split_where(text, cut).last() + more,
        ),
    decreases more.len(),
{
    lemma_pieces_free(text, cut);
    let before = split_where(text, cut);
    if more.len() == 0 {
        assert(text + more == text);
        assert(before.last() + more == before.last());
        assert(before.drop_last().push(before.last()) == before);
    } else {
        let shorter = more.drop_last();
        assert forall|i: int| 0 <= i < shorter.len() implies !cut(#[trigger] shorter[i]) by {
            assert(!cut(more[i]));
        }
        assert(!cut(more[more.len() - 1]));
        lemma_split_longer(text, shorter, cut);
        assert((text + more).drop_last() == text + shorter);
        let middle = split_where(text + shorter, cut);
        assert(middle.drop_last() == before.drop_last());
        assert(middle.last().push(more.last()) == before.last() + more);
    }
}

/// A list of formulas with commas and spaces between them yields the same list.
proof fn lemma_list_again<A: Arithmetic>(list: Seq<Seq<char>>)
    requires
        list.no_duplicates(),
        forall|i: int| 0 <= i < list.len() ==> is_formula::<A>(#[trigger] list[i]),
        forall|i: int|
            0 <= i < list.len() ==> free_of(#[trigger] list[i], |c: char| formula_separator(c)),
        forall|i: int| 0 <= i < list.len() ==> candidate(#[trigger] list[i]) == list[i],
    ensures
        valid_formulas::<A>(join(list, ", "@)) == list,
    decreases list.len(),
{
    reveal_strlit(", ");
    let cut = |c: char| formula_separator(c);
    let none = Seq::<char>::empty();
    assert(split_where(none, cut) == seq![none]);
    assert(candidate(none) == none) by {
        lemma_candidate_again(none);
        lemma_nothing_to_trim(none, |c: char| white_space(c));
        lemma_nothing_to_trim(none, |c: char| formula_edge(c));
    }
    if list.len() == 0 {
        let pieces = seq![none];
        assert(pieces.drop_last() == Seq::<Seq<char>>::empty());
        assert(formulas_in::<A>(pieces.drop_last()) == list);
    } else {
        let front = list.drop_last();
        let last = list.last();
        assert(list[list.len() - 1] == last);
        assert forall|i: int| 0 <= i < front.len() implies is_formula::<A>(#[trigger] front[i])
            && free_of(front[i], cut) && candidate(front[i]) == front[i] by {
            assert(list[i] == front[i]);
        }
        lemma_list_again::<A>(front);
        if front.contains(last) {
            let k = choose|k: int| 0 <= k < front.len() && front[k] == last;
            assert(list[k] == list[list.len() - 1]);
        }
        let text = join(list, ", "@);
        if list.len() == 1 {
            assert(text == none + last);
            lemma_split_longer(none, last, cut);
            let pieces = split_where(text, cut);
            assert(none + last == last);
            assert(pieces == seq![last]);
            assert(pieces.drop_last() == Seq::<Seq<char>>::empty());
            assert(formulas_in::<A>(pieces.drop_last()) == front);
            assert(front.push(last) == list);
        } else {
            let before = join(front, ", "@);
            let pieces = split_where(before, cut);
            let comma = before.push(',');
            let space = comma.push(' ');
            assert(comma.drop_last() == before);
            assert(space.drop_last() == comma);
            assert(split_where(comma, cut) == pieces.push(none));
            assert(split_where(space, cut) == pieces.push(none).push(none));
            assert(text == space + last);
            lemma_split_longer(space, last, cut);
            let all = pieces.push(none).push(last);
            assert(none + last == last);
            assert(split_where(space, cut).drop_last() == pieces.push(none));
            assert(split_where(text, cut) == all);
            assert(all.drop_last() == pieces.push(none));
            assert(pieces.push(none).drop_last() == pieces);
            assert(formulas_in::<A>(pieces) == front);
            assert(formulas_in::<A>(pieces.push(none)) == front);
            assert(front.push(last) == list);
        }
    }
}

proof fn lemma_found_formulas<A: Arithmetic>(pieces: Seq<Seq<char>>)
    requires
        forall|k: int|
            0 <= k < pieces.len() ==> free_of(#[trigger] pieces[k], |c: char| formula_separator(c)),
    ensures
        forall|i: int|
            0 <= i < formulas_in::<A>(pieces).len() ==> free_of(
                #[trigger] formulas_in::<A>(pieces)[i],
                |c: char| formula_separator(c),
            ) && candidate(formulas_in::<A>(pieces)[i]) == formulas_in::<A>(pieces)[i],
    decreases pieces.len(),
{
    if pieces.len() > 0 {
        let fewer = pieces.drop_last();
        assert forall|k: int| 0 <= k < fewer.len() implies free_of(
            #[trigger] fewer[k],
            |c: char| formula_separator(c),
        ) by {
            assert(fewer[k] == pieces[k]);
        }
        lemma_found_formulas::<A>(fewer);
        assert(free_of(pieces[pieces.len() - 1], |c: char| formula_separator(c)));
        lemma_candidate_again(pieces.last());
        let before = formulas_in::<A>(fewer);
        let now = formulas_in::<A>(pieces);
        assert forall|i: int| 0 <= i < now.len() implies free_of(
            #[trigger] now[i],
            |c: char| formula_separator(c),
        ) && candidate(now[i]) == now[i] by {
            if i < before.len() {
                assert(now[i] == before[i]);
            }
        }
    }
}

/// Law: the formulas found in an input, listed with commas between them, are found again, all of
/// them, in the same order.
pub proof fn law_formulas_are_found_again<A: Arithmetic>(input: Seq<char>)
    ensures
        valid_formulas::<A>(join(valid_formulas::<A>(input), ", "@)) == valid_formulas::<A>(input),
{
    law_valid_formulas::<A>(input);
    lemma_pieces_free(input, |c: char| formula_separator(c));
    lemma_found_formulas::<A>(formula_pieces(input));
    lemma_list_again::<A>(valid_formulas::<A>(input));
}

/// A cut between two texts parts their pieces.
proof fn lemma_split_at_cut(first: Seq<char>, c: char, second: Seq<char>, cut: spec_fn(char) -> bool)
    requires
        cut(c),
    ensures
        split_where(first.push(c) + second, cut) == split_where(first, cut) + split_where(
            second,
            cut,
        ),
    decreases second.len(),
{
    let before = split_where(first, cut);
    let text = first.push(c) + second;
    if second.len() == 0 {
        assert(text.drop_last() == first);
        assert(before.push(Seq::empty()) == before + seq![Seq::<char>::empty()]);
    } else {
        let front = second.drop_last();
        lemma_split_at_cut(first, c, front, cut);
        lemma_pieces_free(front, cut);
        assert(text.drop_last() == first.push(c) + front);
        let pieces = split_where(front, cut);
        if cut(second.last()) {
            assert((before + pieces).push(Seq::empty()) == before + pieces.push(Seq::empty()));
        } else {
            let longer = pieces.last().push(second.last());
            assert((before + pieces).drop_last() == before + pieces.drop_last());
            assert((before + pieces.drop_last()).push(longer) == before + pieces.drop_last().push(
                longer,
            ));
        }
    }
}

/// The formulas in two lists of pieces are those of the first, and then the new ones of the second.
proof fn lemma_formulas_in_both<A: Arithmetic>(first: Seq<Seq<char>>, second: Seq<Seq<char>>)
    ensures
        formulas_in::<A>(first + second) == formulas_in::<A>(first) + formulas_in::<A>(
            second,
        ).filter(|formula: Seq<char>| !formulas_in::<A>(first).contains(formula)),
    decreases second.len(),
{
    reveal(Seq::filter);
    let known = formulas_in::<A>(first);
    let new = |formula: Seq<char>| !known.contains(formula);
    if second.len() == 0 {
        assert(first + second == first);
        assert(known + Seq::<Seq<char>>::empty() == known);
    } else {
        let front = second.drop_last();
        let last = candidate(second.last());
        lemma_formulas_in_both::<A>(first, front);
        assert((first + second).drop_last() == first + front);
        let found = formulas_in::<A>(front);
        let both = known + found.filter(new);
        lemma_filter_members(found, new, last);
        assert(both.contains(last) <==> known.contains(last) || found.contains(last)) by {
            if both.contains(last) {
                let k = choose|k: int| 0 <= k < both.len() && both[k] == last;
                if k < known.len() {
                    assert(known[k] == last);
                } else {
                    assert(found.filter(new)[k - known.len()] == last);
                    assert(found.filter(new).contains(last));
                }
            }
            if known.contains(last) {
                let k = choose|k: int| 0 <= k < known.len() && known[k] == last;
                assert(both[k] == last);
            } else if found.contains(last) {
                let k = choose|k: int|
                    0 <= k < found.filter(new).len() && found.filter(new)[k] == last;
                assert(both[known.len() + k] == last);
            }
        }
        if is_formula::<A>(last) && !found.contains(last) {
            assert(found.push(last).drop_last() == found);
            if new(last) {
                assert(both.push(last) == known + found.filter(new).push(last));
            }
        }
    }
}

proof fn lemma_filter_members(
    list: Seq<Seq<char>>,
    test: spec_fn(Seq<char>) -> bool,
    text: Seq<char>,
)
    ensures
        list.filter(test).contains(text) <==> list.contains(text) && test(text),
    decreases list.len(),
{
    reveal(Seq::filter);
    if list.len() > 0 {
        let front = list.drop_last();
        lemma_filter_members(front, test, text);
        let before = front.filter(test);
        let now = list.filter(test);
        if now.contains(text) {
            let k = choose|k: int| 0 <= k < now.len() && now[k] == text;
            if k < before.len() {
                assert(before[k] == text);
                let i = choose|i: int| 0 <= i < front.len() && front[i] == text;
                assert(list[i] == text);
            } else {
                assert(list[list.len() - 1] == text);
            }
        }
        if list.contains(text) && test(text) {
            let i = choose|i: int| 0 <= i < list.len() && list[i] == text;
            if i < front.len() {
                assert(front[i] == text);
                let k = choose|k: int| 0 <= k < before.len() && before[k] == text;
                assert(now[k] == text);
            } else {
                assert(now[now.len() - 1] == text);
            }
        }
    }
}

/// Law: the formulas found in two texts with a separator between them, such as a space, are those
/// of the first text, and then those of the second that are new.
pub proof fn law_formulas_of_two_texts<A: Arithmetic>(
    first: Seq<char>,
    separator: char,
    second: Seq<char>,
)
    requires
        formula_separator(separator),
    ensures
        valid_formulas::<A>(first.push(separator) + second) == valid_formulas::<A>(first)
            + valid_formulas::<A>(second).filter(
            |formula: Seq<char>| !valid_formulas::<A>(first).contains(formula),
        ),
{
    lemma_split_at_cut(first, separator, second, |c: char| formula_separator(c));
    lemma_formulas_in_both::<A>(formula_pieces(first), formula_pieces(second));
}

/// A text without a character at which it would be cut is one piece.
proof fn lemma_one_piece(text: Seq<char>, cut: spec_fn(char) -> bool)
    requires
        free_of(text, cut),
    ensures
        split_where(text, cut) == seq![text],
    decreases text.len(),
{
    if text.len() == 0 {
        assert(text == Seq::<char>::empty());
    } else {
        let front = text.drop_last();
        assert forall|i: int| 0 <= i < front.len() implies !cut(#[trigger] front[i]) by {
            assert(front[i] == text[i]);
        }
        lemma_one_piece(front, cut);
        assert(!cut(text[text.len() - 1]));
        assert(seq![front].drop_last() == Seq::<Seq<char>>::empty());
        assert(front.push(text.last()) == text);
    }
}

/// Law: cutting a text at a character of a kind parts its pieces in two; a text without such a
/// character is one piece.
pub proof fn law_split(first: Seq<char>, c: char, second: Seq<char>, cut: spec_fn(char) -> bool)
    ensures
        free_of(first, cut) ==> split_where(first, cut) == seq![first],
        cut(c) ==> split_where(first.push(c) + second, cut) == split_where(first, cut)
            + split_where(second, cut),
{
    if free_of(first, cut) {
        lemma_one_piece(first, cut);
    }
    if cut(c) {
        lemma_split_at_cut(first, c, second, cut);
    }
}

/// Whether all characters of a text are ASCII punctuation that can stand around a formula.
pub open spec fn around_formula(text: Seq<char>) -> bool {
    forall|i: int|
        0 <= i < text.len() ==> {
            &&& ascii_punctuation(#[trigger] text[i])
            &&& !seq![')', ']', '}', '/', '.'].contains(text[i])
            &&& !formula_separator(text[i])
        }
}

/// Whether a text can stand in a word as it is: it holds no separator, and no punctuation that is
/// taken off stands at its ends.
pub open spec fn bare_word(text: Seq<char>) -> bool {
    &&& text.len() > 0
    &&& free_of(text, |c: char| formula_separator(c))
    &&& !around_formula(text.take(1))
    &&& !around_formula(text.skip(text.len() - 1))
}

proof fn lemma_edges(c: char)
    ensures
        formula_edge(c) <==> ascii_punctuation(c) && !seq![')', ']', '}', '/', '.'].contains(c),
{
    let inner = seq![')', ']', '}', '/', '.'];
    assert(inner[0] == ')' && inner[1] == ']' && inner[2] == '}' && inner[3] == '/' && inner[4]
        == '.');
}

/// Law: a word is looked at without the punctuation around it, and found if what is left is a
/// formula. Closing brackets, slashes and points are part of what is looked at.
pub proof fn law_word_is_looked_at<A: Arithmetic>(
    before: Seq<char>,
    word: Seq<char>,
    after: Seq<char>,
)
    requires
        around_formula(before),
        bare_word(word),
        around_formula(after),
    ensures
        valid_formulas::<A>(before + word + after) == (if compound_of::<A>(word) is Ok {
            seq![word]
        } else {
            Seq::empty()
        }),
{
    let text = before + word + after;
    let cut = |c: char| formula_separator(c);
    let space = |c: char| white_space(c);
    let edge = |c: char| formula_edge(c);
    assert forall|i: int| 0 <= i < text.len() implies !cut(#[trigger] text[i]) by {
        if i < before.len() {
            assert(text[i] == before[i]);
        } else if i < before.len() + word.len() {
            assert(text[i] == word[i - before.len()]);
            assert(!(|c: char| formula_separator(c))(word[i - before.len()]));
        } else {
            assert(text[i] == after[i - before.len() - word.len()]);
        }
    }
    lemma_one_piece(text, cut);
    assert(formula_pieces(text) == seq![text]);
    assert forall|i: int| 0 <= i < before.len() implies edge(#[trigger] before[i]) by {
        lemma_edges(before[i]);
    }
    assert forall|i: int| 0 <= i < after.len() implies edge(#[trigger] after[i]) by {
        lemma_edges(after[i]);
    }
    assert(!cut(text[before.len() as int]) && !cut(text[before.len() + word.len() - 1]));
    assert(text[before.len() as int] == word[0]);
    assert(text[before.len() + word.len() - 1] == word.last());
    lemma_edges(word[0]);
    lemma_edges(word.last());
    assert(word.take(1)[0] == word[0]);
    assert(word.skip(word.len() - 1)[0] == word.last());
    let none = Seq::<char>::empty();
    assert(none + text + none == text);
    assert(!cut(text[0]) && !cut(text[text.len() - 1]));
    law_trim_takes_the_ends(none, text, none, space);
    law_trim_takes_the_ends(before, word, after, edge);
    assert(none + word + none == word);
    law_trim_takes_the_ends(none, word, none, space);
    assert(candidate(text) == word);
    assert(seq![text].drop_last() == Seq::<Seq<char>>::empty());
    assert(formulas_in::<A>(Seq::empty()) == Seq::<Seq<char>>::empty());
    assert(Seq::<Seq<char>>::empty().push(word) == seq![word]);
}

proof fn lemma_no_mass_before<A: Arithmetic>(first: Seq<Seq<char>>, second: Seq<Seq<char>>)
    requires
        forall|k: int| 0 <= k < first.len() ==> mass_in_word::<A>(#[trigger] first[k]) is None,
    ensures
        first_mass::<A>(first + second) == first_mass::<A>(second),
    decreases first.len(),
{
    if first.len() == 0 {
        assert(first + second == second);
    } else {
        let all = first + second;
        assert(all[0] == first[0]);
        assert(all.drop_first() == first.drop_first() + second);
        assert forall|k: int| 0 <= k < first.drop_first().len() implies mass_in_word::<A>(
            #[trigger] first.drop_first()[k],
        ) is None by {
            assert(mass_in_word::<A>(first[k + 1]) is None);
        }
        lemma_no_mass_before::<A>(first.drop_first(), second);
    }
}

/// Whether all characters of a text are ASCII punctuation.
pub open spec fn all_punctuation(text: Seq<char>) -> bool {
    forall|i: int| 0 <= i < text.len() ==> ascii_punctuation(#[trigger] text[i])
}

/// Whether a text can be the number of a mass: it holds no white space, starts with no
/// punctuation, and ends with no `m`.
pub open spec fn number_of_a_mass(text: Seq<char>) -> bool {
    &&& text.len() > 0
    &&& free_of(text, |c: char| white_space(c))
    &&& !ascii_punctuation(text[0])
    &&& text.last() != 'm' && text.last() != 'M'
}

proof fn lemma_word_of_a_mass(lead: Seq<char>, number: Seq<char>, unit: char, trail: Seq<char>)
    requires
        all_punctuation(lead),
        number_of_a_mass(number),
        unit == 'g' || unit == 'G',
        all_punctuation(trail),
    ensures
        free_of(lead + number.push(unit) + trail, |c: char| white_space(c)),
        mass_word(lead + number.push(unit) + trail) == lower_case(number).push('g'),
        !ends_with(lower_case(number).push('g'), "mg"@),
{
    let word = lead + number.push(unit) + trail;
    let space = |c: char| white_space(c);
    let mark = |c: char| ascii_punctuation(c);
    let core = number.push(unit);
    assert forall|i: int| 0 <= i < word.len() implies !space(#[trigger] word[i]) by {
        if i < lead.len() {
            assert(word[i] == lead[i]);
        } else if i < lead.len() + core.len() {
            assert(word[i] == core[i - lead.len()]);
            if i < lead.len() + number.len() {
                assert(core[i - lead.len()] == number[i - lead.len()]);
                assert(!(|c: char| white_space(c))(number[i - lead.len()]));
            }
        } else {
            assert(word[i] == trail[i - lead.len() - core.len()]);
        }
    }
    let none = Seq::<char>::empty();
    assert(none + word + none == word);
    assert(!space(word[0]) && !space(word[word.len() - 1]));
    law_trim_takes_the_ends(none, word, none, space);
    assert(core[0] == number[0]);
    law_trim_takes_the_ends(lead, core, trail, mark);
    assert(lower_case(core) == lower_case(number).push('g'));
    let text = lower_case(number).push('g');
    reveal_strlit("mg");
    law_lower_case(number, number.len() - 1);
    if ends_with(text, "mg"@) {
        assert(text.subrange(text.len() - 2, text.len() as int)[0] == 'm');
        assert(text[text.len() - 2] == 'm');
        assert(lower_case(number)[number.len() - 1] == 'm');
    }
}

/// The words of a text, between white space.
pub open spec fn words_in(text: Seq<char>) -> Seq<Seq<char>> {
    split_where(text, |c: char| white_space(c))
}

/// Law: a number with the unit `g` behind it, in either case and with punctuation around it or
/// without, gives its mass, wherever among other words it stands, if the number is finite and
/// positive and no word before gives a mass.
pub proof fn law_mass_is_found<A: Arithmetic>(
    before: Seq<char>,
    lead: Seq<char>,
    number: Seq<char>,
    unit: char,
    trail: Seq<char>,
    after: Seq<char>,
    value: A::Number,
)
    requires
        before.len() > 0 ==> white_space(before.last()),
        forall|k: int|
            0 <= k < words_in(before).len() ==> mass_in_word::<A>(
                #[trigger] words_in(before)[k],
            ) is None,
        all_punctuation(lead),
        number_of_a_mass(number),
        unit == 'g' || unit == 'G',
        all_punctuation(trail),
        after.len() > 0 ==> white_space(after[0]),
        A::numeral(lower_case(number)) == Some(value),
        A::finite(value),
        A::below(A::integer(0), value),
    ensures
        mass_in::<A>(before + (lead + number.push(unit) + trail) + after) == Some(value),
{
    let word = lead + number.push(unit) + trail;
    let cut = |c: char| white_space(c);
    let input = before + word + after;
    lemma_word_of_a_mass(lead, number, unit, trail);
    lemma_one_piece(word, cut);
    assert(lower_case(number).push('g').drop_last() == lower_case(number));
    assert(mass_in_word::<A>(word) == Some(value));
    // The words from this one on.
    let rest = word + after;
    let later = split_where(rest, cut);
    if after.len() > 0 {
        let tail = after.drop_first();
        assert(rest == word.push(after[0]) + tail);
        lemma_split_at_cut(word, after[0], tail, cut);
        assert(later == seq![word] + split_where(tail, cut));
    } else {
        assert(rest == word);
    }
    assert(later[0] == word);
    assert(first_mass::<A>(later) == Some(value));
    // The words before it.
    if before.len() > 0 {
        let front = before.drop_last();
        let c = before.last();
        let none = Seq::<char>::empty();
        assert(front.push(c) == before);
        assert(input == front.push(c) + rest);
        lemma_split_at_cut(front, c, rest, cut);
        assert(before == front.push(c) + none);
        lemma_split_at_cut(front, c, none, cut);
        let earlier = split_where(front, cut);
        assert forall|k: int| 0 <= k < earlier.len() implies mass_in_word::<A>(
            #[trigger] earlier[k],
        ) is None by {
            assert(words_in(before)[k] == earlier[k]);
        }
        lemma_no_mass_before::<A>(earlier, later);
    } else {
        assert(input == rest);
    }
}

proof fn lemma_free_part(text: Seq<char>, drop: spec_fn(char) -> bool, test: spec_fn(char) -> bool)
    requires
        free_of(text, test),
    ensures
        free_of(trim_where(text, drop), test),
{
    lemma_trimmed(text, drop, test);
}

/// Law: an input without the letter `g` gives a mass only as a whole: it is then a positive number,
/// with white space around it or without. And whatever an input holds, a mass that it gives is
/// positive.
pub proof fn law_mass_as_a_whole<A: Arithmetic>(input: Seq<char>)
    ensures
        free_of(input, |c: char| c == 'g' || c == 'G') ==> mass_in::<A>(input) == (match A::numeral(
            trim(input),
        ) {
            Some(value) => if A::below(A::integer(0), value) {
                Some(value)
            } else {
                None
            },
            None => None,
        }),
        mass_in::<A>(input) matches Some(value) ==> A::below(A::integer(0), value),
{
    let cut = |c: char| white_space(c);
    let unit = |c: char| c == 'g' || c == 'G';
    let words = split_where(input, cut);
    if free_of(input, unit) {
        lemma_pieces_part(input, cut, unit);
        assert forall|k: int| 0 <= k < words.len() implies mass_in_word::<A>(
            #[trigger] words[k],
        ) is None by {
            let word = words[k];
            lemma_free_part(word, |c: char| white_space(c), unit);
            lemma_free_part(trim(word), |c: char| ascii_punctuation(c), unit);
            let bare = trim_where(trim(word), |c: char| ascii_punctuation(c));
            if bare.len() > 0 {
                assert(!unit(bare[bare.len() - 1]));
                law_lower_case(bare, bare.len() - 1);
            }
        }
        assert(words + Seq::<Seq<char>>::empty() == words);
        lemma_no_mass_before::<A>(words, Seq::empty());
    }
    lemma_masses_are_positive::<A>(words);
}

proof fn lemma_masses_are_positive<A: Arithmetic>(words: Seq<Seq<char>>)
    ensures
        first_mass::<A>(words) matches Some(value) ==> A::below(A::integer(0), value),
    decreases words.len(),
{
    if words.len() > 0 {
        lemma_masses_are_positive::<A>(words.drop_first());
    }
}

/// The pieces of a text hold only characters of the text.
proof fn lemma_pieces_part(text: Seq<char>, cut: spec_fn(char) -> bool, test: spec_fn(char) -> bool)
    requires
        free_of(text, test),
    ensures
        split_where(text, cut).len() > 0,
        forall|k: int|
            0 <= k < split_where(text, cut).len() ==> free_of(
                #[trigger] split_where(text, cut)[k],
                test,
            ),
    decreases text.len(),
{
    if text.len() > 0 {
        let front = text.drop_last();
        assert forall|i: int| 0 <= i < front.len() implies !test(#[trigger] front[i]) by {
            assert(front[i] == text[i]);
        }
        lemma_pieces_part(front, cut, test);
        let before = split_where(front, cut);
        let now = split_where(text, cut);
        assert(!test(text[text.len() - 1]));
        assert forall|k: int| 0 <= k < now.len() implies free_of(#[trigger] now[k], test) by {
            if k < before.len() - 1 {
                assert(now[k] == before[k]);
            } else if cut(text.last()) {
                if k == before.len() - 1 {
                    assert(now[k] == before[k]);
                }
            } else {
                assert(free_of(before[before.len() - 1], test));
                let longer = before.last().push(text.last());
                assert(now[k] == longer);
                assert forall|i: int| 0 <= i < longer.len() implies !test(#[trigger] longer[i]) by {
                    if i < before.last().len() {
                        assert(longer[i] == before.last()[i]);
                    }
                }
            }
        }
    }
}

/// The words of consent, in lower case.
pub open spec fn words_of_consent() -> Seq<Seq<char>> {
    seq![
        "ok"@,
        "yes"@,
        "y"@,
        "はい"@,
        "それでok"@,
        "それでよい"@,
        "それで良い"@,
        "それでいい"@,
    ]
}

/// Whether a text consists of white space.
pub open spec fn blank(text: Seq<char>) -> bool {
    forall|i: int| 0 <= i < text.len() ==> white_space(#[trigger] text[i])
}

/// Whether a text consists of marks that can close a sentence.
pub open spec fn all_marks(text: Seq<char>) -> bool {
    forall|i: int|
        0 <= i < text.len() ==> ascii_punctuation(#[trigger] text[i]) || text[i] == '。' || text[i]
            == '、'
}

/// Law: a word of consent confirms, in any case, with marks around it or without, and with white
/// space around both or without.
pub proof fn law_consent_confirms(
    before: Seq<char>,
    lead: Seq<char>,
    word: Seq<char>,
    trail: Seq<char>,
    after: Seq<char>,
)
    requires
        blank(before),
        all_marks(lead),
        words_of_consent().contains(lower_case(word)),
        all_marks(trail),
        blank(after),
    ensures
        confirmation(before + (lead + word + trail) + after),
{
    reveal_strlit("ok");
    reveal_strlit("yes");
    reveal_strlit("y");
    reveal_strlit("はい");
    reveal_strlit("それでok");
    reveal_strlit("それでよい");
    reveal_strlit("それで良い");
    reveal_strlit("それでいい");
    let space = |c: char| white_space(c);
    let mark = |c: char| closing_mark(c);
    let lower = lower_case(word);
    let all = words_of_consent();
    let k = choose|k: int| 0 <= k < all.len() && all[k] == lower;
    assert(consent(lower));
    assert(lower.len() > 0);
    assert(lower.len() == word.len());
    law_lower_case(word, 0);
    law_lower_case(word, word.len() - 1);
    assert(!closing_mark(lower[0]) && !closing_mark(lower.last()));
    assert(!white_space(lower[0]) && !white_space(lower.last()));
    let core = lead + word + trail;
    assert(core.len() > 0);
    if lead.len() > 0 {
        assert(core[0] == lead[0]);
    } else {
        assert(core[0] == word[0]);
    }
    if trail.len() > 0 {
        assert(core.last() == trail[trail.len() - 1]);
    } else {
        assert(core.last() == word.last());
    }
    law_trim_takes_the_ends(before, core, after, space);
    law_trim_takes_the_ends(lead, word, trail, mark);
}

/// Law: an input that confirms holds a word of consent, in any case, and beside it nothing but white
/// space and marks.
pub proof fn law_confirmation_is_consent(input: Seq<char>)
    requires
        confirmation(input),
    ensures
        exists|i: int, j: int|
            {
                &&& 0 <= i <= j <= input.len()
                &&& words_of_consent().contains(lower_case(#[trigger] input.subrange(i, j)))
                &&& forall|k: int|
                    0 <= k < input.len() && !(i <= k < j) ==> white_space(#[trigger] input[k])
                        || ascii_punctuation(input[k]) || input[k] == '。' || input[k] == '、'
            },
{
    let space = |c: char| white_space(c);
    let mark = |c: char| closing_mark(c);
    let (a, b) = lemma_trim_part(input, space);
    let inner = trim(input);
    let (c, d) = lemma_trim_part(inner, mark);
    assert(inner.subrange(c, d) == input.subrange(a + c, a + d));
    assert forall|k: int| 0 <= k < input.len() && !(a + c <= k < a + d) implies white_space(
        #[trigger] input[k],
    ) || ascii_punctuation(input[k]) || input[k] == '。' || input[k] == '、' by {
        if a <= k < b {
            assert(inner[k - a] == input[k]);
            assert(mark(inner[k - a]));
        } else {
            assert(space(input[k]));
        }
    }
    let lower = lower_case(input.subrange(a + c, a + d));
    let all = words_of_consent();
    assert(consent(lower));
    assert(all[0] == "ok"@ && all[1] == "yes"@ && all[2] == "y"@ && all[3] == "はい"@ && all[4]
        == "それでok"@ && all[5] == "それでよい"@ && all[6] == "それで良い"@ && all[7]
        == "それでいい"@);
    assert(all.contains(lower));
}

/// Where the part of a text stands that trimming leaves.
proof fn lemma_trim_part(text: Seq<char>, drop: spec_fn(char) -> bool) -> (range: (int, int))
    ensures
        0 <= range.0 <= range.1 <= text.len(),
        trim_where(text, drop) == text.subrange(range.0, range.1),
        forall|k: int|
            0 <= k < text.len() && !(range.0 <= k < range.1) ==> drop(#[trigger] text[k]),
{
    let i = lemma_trim_start_part(text, drop);
    let rest = text.skip(i);
    let n = lemma_trim_end_part(rest, drop);
    assert(rest.take(n) == text.subrange(i, i + n));
    assert forall|k: int| 0 <= k < text.len() && !(i <= k < i + n) implies drop(
        #[trigger] text[k],
    ) by {
        if k >= i {
            assert(rest[k - i] == text[k]);
        }
    }
    (i, i + n)
}

proof fn lemma_trim_start_part(text: Seq<char>, drop: spec_fn(char) -> bool) -> (i: int)
    ensures
        0 <= i <= text.len(),
        trim_start(text, drop) == text.skip(i),
        forall|k: int| 0 <= k < i ==> drop(#[trigger] text[k]),
    decreases text.len(),
{
    if text.len() > 0 && drop(text[0]) {
        let i = lemma_trim_start_part(text.drop_first(), drop);
        assert(text.drop_first().skip(i) == text.skip(i + 1));
        assert forall|k: int| 0 <= k < i + 1 implies drop(#[trigger] text[k]) by {
            if k > 0 {
                assert(text.drop_first()[k - 1] == text[k]);
            }
        }
        i + 1
    } else {
        assert(text.skip(0) == text);
        0
    }
}

proof fn lemma_trim_end_part(text: Seq<char>, drop: spec_fn(char) -> bool) -> (n: int)
    ensures
        0 <= n <= text.len(),
        trim_end(text, drop) == text.take(n),
        forall|k: int| n <= k < text.len() ==> drop(#[trigger] text[k]),
    decreases text.len(),
{
    if text.len() > 0 && drop(text.last()) {
        let n = lemma_trim_end_part(text.drop_last(), drop);
        assert(text.drop_last().take(n) == text.take(n));
        assert forall|k: int| n <= k < text.len() implies drop(#[trigger] text[k]) by {
            if k < text.len() - 1 {
                assert(text.drop_last()[k] == text[k]);
            }
        }
        n
    } else {
        assert(text.take(text.len() as int) == text);
        text.len() as int
    }
}

/// Law: a prompt says all that is settled, in the order target, mass, precursors, and what is not
/// settled as such; then it repeats the input as it is.
pub proof fn law_prompt_says_what_is_settled<A: Arithmetic>(
    state: Settled<A::Number>,
    input: Seq<char>,
)
    ensures
        ({
            let open = "未確定"@;
            let target = if let Some(formula) = state.target {
                formula
            } else {
                open
            };
            let mass = if let Some(number) = state.mass {
                A::plain_text(number)
            } else {
                open
            };
            let precursors = if state.precursors.len() == 0 {
                open
            } else {
                join(state.precursors, ", "@)
            };
            wrapped::<A>(state, input) == "[現在の状態]\n目的組成: "@ + target
                + "\n目標質量_g: "@ + mass + "\n原料組成: "@ + precursors
                + "\n\n[ユーザー入力]\n"@ + input
        }),
{
}

/// Law: a name made of `nmc` and three digits other than three ones means the layered oxide with
/// that many tenths of nickel, cobalt and manganese, if it is known; and the digits of each that is
/// known add up to ten.
pub proof fn law_nmc_digits_are_tenths(a: char, b: char, c: char)
    requires
        ascii_digit(a),
        ascii_digit(b),
        ascii_digit(c),
        !(a == '1' && b == '1' && c == '1'),
    ensures
        named_material(seq!['n', 'm', 'c', a, b, c]) matches Some(formula) ==> {
            &&& formula == "LiNi0."@ + seq![a] + "Co0."@ + seq![b] + "Mn0."@ + seq![c] + "O2"@
            &&& digit_value(a) + digit_value(b) + digit_value(c) == 10
        },
{
    reveal_strlit("lfp");
    reveal_strlit("nmc111");
    reveal_strlit("lini1/3co1/3mn1/3o2");
    reveal_strlit("nmc532");
    reveal_strlit("nmc622");
    reveal_strlit("nmc811");
    reveal_strlit("latp");
    reveal_strlit("llzo");
    reveal_strlit("lgps");
    reveal_strlit("LiNi0.");
    reveal_strlit("Co0.");
    reveal_strlit("Mn0.");
    reveal_strlit("O2");
    reveal_strlit("LiNi0.5Co0.3Mn0.2O2");
    reveal_strlit("LiNi0.6Co0.2Mn0.2O2");
    reveal_strlit("LiNi0.8Co0.1Mn0.1O2");
    let name = seq!['n', 'm', 'c', a, b, c];
    assert(name.len() == 6);
    assert(name[3] == a && name[4] == b && name[5] == c);
    if name == "nmc532"@ {
        assert(a == '5' && b == '3' && c == '2');
        assert("LiNi0."@ + seq!['5'] + "Co0."@ + seq!['3'] + "Mn0."@ + seq!['2'] + "O2"@
            == "LiNi0.5Co0.3Mn0.2O2"@);
    } else if name == "nmc622"@ {
        assert(a == '6' && b == '2' && c == '2');
        assert("LiNi0."@ + seq!['6'] + "Co0."@ + seq!['2'] + "Mn0."@ + seq!['2'] + "O2"@
            == "LiNi0.6Co0.2Mn0.2O2"@);
    } else if name == "nmc811"@ {
        assert(a == '8' && b == '1' && c == '1');
        assert("LiNi0."@ + seq!['8'] + "Co0."@ + seq!['1'] + "Mn0."@ + seq!['1'] + "O2"@
            == "LiNi0.8Co0.1Mn0.1O2"@);
    } else if name == "nmc111"@ {
        assert("nmc111"@[3] == '1' && "nmc111"@[4] == '1' && "nmc111"@[5] == '1');
    }
}

/// The names that are known, and the materials that they mean.
pub open spec fn known_names() -> Seq<(Seq<char>, Seq<char>)> {
    seq![
        ("lfp"@, "LiFePO4"@),
        ("nmc111"@, "LiNi1/3Co1/3Mn1/3O2"@),
        ("lini1/3co1/3mn1/3o2"@, "LiNi1/3Co1/3Mn1/3O2"@),
        ("nmc532"@, "LiNi0.5Co0.3Mn0.2O2"@),
        ("nmc622"@, "LiNi0.6Co0.2Mn0.2O2"@),
        ("nmc811"@, "LiNi0.8Co0.1Mn0.1O2"@),
        ("latp"@, "Li1.3Al0.3Ti1.7(PO4)3"@),
        ("llzo"@, "Li7La3Zr2O12"@),
        ("lgps"@, "Li10GeP2S12"@),
    ]
}

/// Law: a name means a material if, and only if, it is listed with it, apart from the case of its
/// ASCII letters; and nothing is left out of a name but spaces, hyphens and underscores.
pub proof fn law_names_are_known(input: Seq<char>, formula: Seq<char>)
    requires
        trim(input) == input,
        free_of(input, |c: char| c == ' ' || c == '-' || c == '_'),
    ensures
        plain_name(input) == lower_case(input),
        named_material(plain_name(input)) == Some(formula) <==> known_names().contains(
            (lower_case(input), formula),
        ),
{
    reveal_strlit("lfp");
    reveal_strlit("nmc111");
    reveal_strlit("lini1/3co1/3mn1/3o2");
    reveal_strlit("nmc532");
    reveal_strlit("nmc622");
    reveal_strlit("nmc811");
    reveal_strlit("latp");
    reveal_strlit("llzo");
    reveal_strlit("lgps");
    let name = lower_case(input);
    let keep = |c: char| !filler(c);
    assert forall|i: int| 0 <= i < name.len() implies keep(#[trigger] name[i]) by {
        law_lower_case(input, i);
        assert(!(|c: char| c == ' ' || c == '-' || c == '_')(input[i]));
    }
    lemma_all_kept(name, keep);
    let known = known_names();
    assert(known[0].0 == "lfp"@ && known[1].0 == "nmc111"@ && known[2].0 == "lini1/3co1/3mn1/3o2"@
        && known[3].0 == "nmc532"@ && known[4].0 == "nmc622"@ && known[5].0 == "nmc811"@
        && known[6].0 == "latp"@ && known[7].0 == "llzo"@ && known[8].0 == "lgps"@);
    assert("nmc111"@[3] == '1' && "nmc532"@[3] == '5' && "nmc622"@[3] == '6' && "nmc811"@[3] == '8');
    assert("latp"@[1] == 'a' && "llzo"@[1] == 'l' && "lgps"@[1] == 'g');
    if let Some(found) = named_material(name) {
        let pair = (name, found);
        if name == "lfp"@ {
            assert(known[0] == pair);
        } else if name == "nmc111"@ {
            assert(known[1] == pair);
        } else if name == "lini1/3co1/3mn1/3o2"@ {
            assert(known[2] == pair);
        } else if name == "nmc532"@ {
            assert(known[3] == pair);
        } else if name == "nmc622"@ {
            assert(known[4] == pair);
        } else if name == "nmc811"@ {
            assert(known[5] == pair);
        } else if name == "latp"@ {
            assert(known[6] == pair);
        } else if name == "llzo"@ {
            assert(known[7] == pair);
        } else {
            assert(known[8] == pair);
        }
        assert(known.contains(pair));
    }
    if known.contains((name, formula)) {
        let i = choose|i: int| 0 <= i < known.len() && known[i] == (name, formula);
        assert(0 <= i < 9);
        assert(named_material(known[i].0) == Some(known[i].1));
    }
}

proof fn lemma_all_kept(text: Seq<char>, keep: spec_fn(char) -> bool)
    requires
        forall|i: int| 0 <= i < text.len() ==> keep(#[trigger] text[i]),
    ensures
        text.filter(keep) == text,
    decreases text.len(),
{
    reveal(Seq::filter);
    if text.len() > 0 {
        assert forall|i: int| 0 <= i < text.drop_last().len() implies keep(
            #[trigger] text.drop_last()[i],
        ) by {
            assert(keep(text[i]));
        }
        lemma_all_kept(text.drop_last(), keep);
        assert(keep(text[text.len() - 1]));
    }
}

/// Law: at first nothing is settled.
pub proof fn law_nothing_is_settled_at_first<N>()
    ensures
        nothing_settled::<N>().target is None,
        nothing_settled::<N>().mass is None,
        nothing_settled::<N>().precursors.len() == 0,
{
}

/// Law: formulas are parted by white space, by commas, semicolons and colons of both widths, and by
/// quotes of the kinds that are common, and by nothing else.
pub proof fn law_separators(c: char)
    ensures
        formula_separator(c) <==> white_space(c) || seq![
            ',',
            '、',
            ';',
            '；',
            ':',
            '：',
            '"',
            '\'',
            '`',
            '「',
            '」',
        ].contains(c),
{
    let list = seq![',', '、', ';', '；', ':', '：', '"', '\'', '`', '「', '」'];
    assert(list[0] == ',' && list[1] == '、' && list[2] == ';' && list[3] == '；' && list[4] == ':'
        && list[5] == '：' && list[6] == '"' && list[7] == '\'' && list[8] == '`' && list[9] == '「'
        && list[10] == '」');
}

} // verus!
