//! What a conversation has settled so far, and what an input says.

use vstd::prelude::*;

use crate::arithmetic::{format_plain, from_integer, is_below, is_finite, lawful, parse, Arithmetic};
use crate::formula::{compound_of, parse_compound};
use crate::text::{ascii_punctuation, char_texts, chars_of, is_ascii_punctuation, is_text, is_white_space, join, join_strings, lower_case, occurs_at, part, split_chars, split_where, stands_at, string_of, text_in, texts, to_lower_case, trim, trim_chars, trim_chars_where, trim_where, white_space};

verus! {

/// What is settled: the target, its mass, and the precursors.
#[derive(Debug)]
pub struct ConversationState<N> {
    pub target_formula: Option<String>,
    pub target_mass_g: Option<N>,
    pub precursor_formulas: Vec<String>,
}

/// What a [`ConversationState`] says.
pub struct Settled<N> {
    pub target: Option<Seq<char>>,
    pub mass: Option<N>,
    pub precursors: Seq<Seq<char>>,
}

impl<N> View for ConversationState<N> {
    type V = Settled<N>;

    open spec fn view(&self) -> Settled<N> {
        Settled {
            target: text_in(self.target_formula),
            mass: self.target_mass_g,
            precursors: texts(self.precursor_formulas@),
        }
    }
}

/// Nothing is settled.
pub open spec fn nothing_settled<N>() -> Settled<N> {
    Settled { target: None, mass: None, precursors: Seq::empty() }
}

impl<N> Default for ConversationState<N> {
    fn default() -> (state: Self)
        ensures
            state@ == nothing_settled::<N>(),
    {
        let precursor_formulas: Vec<String> = Vec::new();
        assert(texts(precursor_formulas@) == Seq::<Seq<char>>::empty());
        ConversationState { target_formula: None, target_mass_g: None, precursor_formulas }
    }
}

/// The target in words.
pub open spec fn target_words(target: Option<Seq<char>>) -> Seq<char> {
    match target {
        Some(formula) => formula,
        None => "未確定"@,
    }
}

/// The mass in words.
pub open spec fn mass_words<A: Arithmetic>(mass: Option<A::Number>) -> Seq<char> {
    match mass {
        Some(mass) => A::plain_text(mass),
        None => "未確定"@,
    }
}

/// The precursors in words.
pub open spec fn precursor_words(precursors: Seq<Seq<char>>) -> Seq<char> {
    if precursors.len() == 0 {
        "未確定"@
    } else {
        join(precursors, ", "@)
    }
}

/// What is passed on of an input: what is settled, and the input itself.
pub open spec fn wrapped<A: Arithmetic>(state: Settled<A::Number>, input: Seq<char>) -> Seq<char> {
    "[現在の状態]\n目的組成: "@ + target_words(state.target) + "\n目標質量_g: "@ + mass_words::<A>(
        state.mass,
    ) + "\n原料組成: "@ + precursor_words(state.precursors) + "\n\n[ユーザー入力]\n"@ + input
}

impl<N: Copy> ConversationState<N> {
    /// Puts what is settled in front of an input.
    pub fn wrap_user_input<A: Arithmetic<Number = N>>(&self, input: &str) -> (text: String)
        requires
            lawful::<A>(),
        ensures
            text@ == wrapped::<A>(self@, input@),
    {
        let mut text: String = "[現在の状態]\n目的組成: ".to_string();
        match &self.target_formula {
            Some(formula) => text.append(formula.as_str()),
            None => text.append("未確定"),
        }
        text.append("\n目標質量_g: ");
        match self.target_mass_g {
            Some(mass) => text.append(format_plain::<A>(mass).as_str()),
            None => text.append("未確定"),
        }
        text.append("\n原料組成: ");
        if self.precursor_formulas.len() == 0 {
            text.append("未確定");
        } else {
            text.append(join_strings(&self.precursor_formulas, ", ").as_str());
        }
        text.append("\n\n[ユーザー入力]\n");
        text.append(input);
        text
    }
}

/// The characters at the ends of a confirmation that do not matter.
pub open spec fn closing_mark(c: char) -> bool {
    ascii_punctuation(c) || c == '。' || c == '、'
}

fn is_closing_mark(c: char) -> (r: bool)
    ensures
        r == closing_mark(c),
{
    is_ascii_punctuation(c) || c == '。' || c == '、'
}

/// The words of consent.
pub open spec fn consent(text: Seq<char>) -> bool {
    ||| text == "ok"@
    ||| text == "yes"@
    ||| text == "y"@
    ||| text == "はい"@
    ||| text == "それでok"@
    ||| text == "それでよい"@
    ||| text == "それで良い"@
    ||| text == "それでいい"@
}

/// Whether an input is a word of consent, apart from marks at its ends and the case of ASCII
/// letters.
pub open spec fn confirmation(input: Seq<char>) -> bool {
    consent(lower_case(trim_where(trim(input), |c: char| closing_mark(c))))
}

/// Whether an input does no more than confirm.
pub fn is_confirmation_only(input: &str) -> (r: bool)
    ensures
        r == confirmation(input@),
{
    let trimmed: Vec<char> = trim_chars(&chars_of(input));
    let bare: Vec<char> = trim_chars_where(
        &trimmed,
        is_closing_mark,
        Ghost(|c: char| closing_mark(c)),
    );
    let chars: Vec<char> = to_lower_case(&bare);
    is_text(&chars, "ok") || is_text(&chars, "yes") || is_text(&chars, "y") || is_text(
        &chars,
        "はい",
    ) || is_text(&chars, "それでok") || is_text(&chars, "それでよい") || is_text(
        &chars,
        "それで良い",
    ) || is_text(&chars, "それでいい")
}

/// The characters between which formulas stand.
pub open spec fn formula_separator(c: char) -> bool {
    ||| white_space(c)
    ||| c == ','
    ||| c == '、'
    ||| c == ';'
    ||| c == '；'
    ||| c == ':'
    ||| c == '：'
    ||| c == '"'
    ||| c == '\''
    ||| c == '`'
    ||| c == '「'
    ||| c == '」'
}

fn is_formula_separator(c: char) -> (r: bool)
    ensures
        r == formula_separator(c),
{
    is_white_space(c) || c == ',' || c == '、' || c == ';' || c == '；' || c == ':' || c == '：' || c
        == '"' || c == '\'' || c == '`' || c == '「' || c == '」'
}

/// The characters at the ends of a piece that are no part of a formula.
pub open spec fn formula_edge(c: char) -> bool {
    ascii_punctuation(c) && c != ')' && c != ']' && c != '}' && c != '/' && c != '.'
}

fn is_formula_edge(c: char) -> (r: bool)
    ensures
        r == formula_edge(c),
{
    is_ascii_punctuation(c) && c != ')' && c != ']' && c != '}' && c != '/' && c != '.'
}

/// The part of a piece that may be a formula.
pub open spec fn candidate(piece: Seq<char>) -> Seq<char> {
    trim(trim_where(trim(piece), |c: char| formula_edge(c)))
}

/// The pieces of an input that may hold a formula each.
pub open spec fn formula_pieces(input: Seq<char>) -> Seq<Seq<char>> {
    split_where(input, |c: char| formula_separator(c))
}

/// Whether a text is a formula.
pub open spec fn is_formula<A: Arithmetic>(text: Seq<char>) -> bool {
    text.len() > 0 && compound_of::<A>(text) is Ok
}

/// The formulas in some pieces, in order, each once.
pub open spec fn formulas_in<A: Arithmetic>(pieces: Seq<Seq<char>>) -> Seq<Seq<char>>
    decreases pieces.len(),
{
    if pieces.len() == 0 {
        Seq::empty()
    } else {
        let before = formulas_in::<A>(pieces.drop_last());
        let last = candidate(pieces.last());
        if is_formula::<A>(last) && !before.contains(last) {
            before.push(last)
        } else {
            before
        }
    }
}

/// The formulas in an input, in order, each once.
pub open spec fn valid_formulas<A: Arithmetic>(input: Seq<char>) -> Seq<Seq<char>> {
    formulas_in::<A>(formula_pieces(input))
}

fn is_listed(list: &Vec<String>, text: &Vec<char>) -> (r: bool)
    ensures
        r == texts(list@).contains(text@),
{
    let ghost all = texts(list@);
    for i in 0..list.len()
        invariant
            all == texts(list@),
            forall|k: int| 0 <= k < i ==> #[trigger] all[k] != text@,
    {
        assert(all[i as int] == list@[i as int]@);
        if is_text(text, list[i].as_str()) {
            return true;
        }
    }
    false
}

/// Finds the formulas in an input.
pub fn extract_valid_formulas<A: Arithmetic>(input: &str) -> (formulas: Vec<String>)
    requires
        lawful::<A>(),
    ensures
        texts(formulas@) == valid_formulas::<A>(input@),
{
    let pieces: Vec<Vec<char>> = split_chars(
        &chars_of(input),
        is_formula_separator,
        Ghost(|c: char| formula_separator(c)),
    );
    let ghost all = char_texts(pieces@);
    let mut formulas: Vec<String> = Vec::new();
    assert(texts(formulas@) == formulas_in::<A>(all.take(0)));
    for i in 0..pieces.len()
        invariant
            lawful::<A>(),
            all == char_texts(pieces@),
            texts(formulas@) == formulas_in::<A>(all.take(i as int)),
    {
        assert(all.take(i + 1).drop_last() == all.take(i as int));
        assert(all.take(i + 1).last() == pieces@[i as int]@);
        let trimmed: Vec<char> = trim_chars(&pieces[i]);
        let bare: Vec<char> = trim_chars_where(
            &trimmed,
            is_formula_edge,
            Ghost(|c: char| formula_edge(c)),
        );
        let chars: Vec<char> = trim_chars(&bare);
        if chars.len() > 0 {
            let formula: String = string_of(&chars);
            if parse_compound::<A>(formula.as_str()).is_ok() && !is_listed(&formulas, &chars) {
                let ghost before = formulas@;
                formulas.push(formula);
                assert(texts(formulas@) == texts(before).push(formula@));
            }
        }
    }
    assert(all.take(all.len() as int) == all);
    formulas
}

/// The characters of a name that do not matter.
pub open spec fn filler(c: char) -> bool {
    c == ' ' || c == '-' || c == '_'
}

/// A name without what does not matter.
pub open spec fn plain_name(input: Seq<char>) -> Seq<char> {
    lower_case(trim(input)).filter(|c: char| !filler(c))
}

/// The formula of a material with a common name.
pub open spec fn named_material(name: Seq<char>) -> Option<Seq<char>> {
    if name == "lfp"@ {
        Some("LiFePO4"@)
    } else if name == "nmc111"@ || name == "lini1/3co1/3mn1/3o2"@ {
        Some("LiNi1/3Co1/3Mn1/3O2"@)
    } else if name == "nmc532"@ {
        Some("LiNi0.5Co0.3Mn0.2O2"@)
    } else if name == "nmc622"@ {
        Some("LiNi0.6Co0.2Mn0.2O2"@)
    } else if name == "nmc811"@ {
        Some("LiNi0.8Co0.1Mn0.1O2"@)
    } else if name == "latp"@ {
        Some("Li1.3Al0.3Ti1.7(PO4)3"@)
    } else if name == "llzo"@ {
        Some("Li7La3Zr2O12"@)
    } else if name == "lgps"@ {
        Some("Li10GeP2S12"@)
    } else {
        None
    }
}

fn without_filler(chars: &Vec<char>) -> (rest: Vec<char>)
    ensures
        rest@ == chars@.filter(|c: char| !filler(c)),
{
    let ghost keep = |c: char| !filler(c);
    let mut rest: Vec<char> = Vec::new();
    proof {
        reveal(Seq::filter);
        assert(chars@.take(0).filter(keep) == Seq::<char>::empty());
    }
    for i in 0..chars.len()
        invariant
            keep == (|c: char| !filler(c)),
            rest@ == chars@.take(i as int).filter(keep),
    {
        let c: char = chars[i];
        proof {
            reveal(Seq::filter);
            assert(chars@.take(i + 1).drop_last() == chars@.take(i as int));
        }
        if c != ' ' && c != '-' && c != '_' {
            rest.push(c);
        }
    }
    assert(chars@.take(chars@.len() as int) == chars@);
    rest
}

/// Guesses which material a common name means.
pub fn guess_material_formula(input: &str) -> (formula: Option<String>)
    ensures
        text_in(formula) == named_material(plain_name(input@)),
{
    let lower: Vec<char> = to_lower_case(&trim_chars(&chars_of(input)));
    let name: Vec<char> = without_filler(&lower);
    if is_text(&name, "lfp") {
        Some("LiFePO4".to_string())
    } else if is_text(&name, "nmc111") || is_text(&name, "lini1/3co1/3mn1/3o2") {
        Some("LiNi1/3Co1/3Mn1/3O2".to_string())
    } else if is_text(&name, "nmc532") {
        Some("LiNi0.5Co0.3Mn0.2O2".to_string())
    } else if is_text(&name, "nmc622") {
        Some("LiNi0.6Co0.2Mn0.2O2".to_string())
    } else if is_text(&name, "nmc811") {
        Some("LiNi0.8Co0.1Mn0.1O2".to_string())
    } else if is_text(&name, "latp") {
        Some("Li1.3Al0.3Ti1.7(PO4)3".to_string())
    } else if is_text(&name, "llzo") {
        Some("Li7La3Zr2O12".to_string())
    } else if is_text(&name, "lgps") {
        Some("Li10GeP2S12".to_string())
    } else {
        None
    }
}

/// A word without white space and punctuation at its ends, in lower case.
pub open spec fn mass_word(word: Seq<char>) -> Seq<char> {
    lower_case(trim_where(trim(word), |c: char| ascii_punctuation(c)))
}

/// Whether a text ends with another.
pub open spec fn ends_with(text: Seq<char>, end: Seq<char>) -> bool {
    occurs_at(text, end, text.len() - end.len())
}

/// The mass that a word gives: a positive number and the unit, as in `2.5g`. A mass in milligrams
/// is none.
pub open spec fn mass_in_word<A: Arithmetic>(word: Seq<char>) -> Option<A::Number> {
    let text = mass_word(word);
    if text.len() > 1 && text.last() == 'g' && !ends_with(text, "mg"@) {
        match A::numeral(text.drop_last()) {
            Some(value) => if A::finite(value) && A::below(A::integer(0), value) {
                Some(value)
            } else {
                None
            },
            None => None,
        }
    } else {
        None
    }
}

/// The first mass that a word gives.
pub open spec fn first_mass<A: Arithmetic>(words: Seq<Seq<char>>) -> Option<A::Number>
    decreases words.len(),
{
    if words.len() == 0 {
        None
    } else {
        match mass_in_word::<A>(words[0]) {
            Some(value) => Some(value),
            None => first_mass::<A>(words.drop_first()),
        }
    }
}

/// The mass in grams that an input gives: that of its first word that gives one, or the input
/// itself if it is a positive number.
pub open spec fn mass_in<A: Arithmetic>(input: Seq<char>) -> Option<A::Number> {
    match first_mass::<A>(split_where(input, |c: char| white_space(c))) {
        Some(value) => Some(value),
        None => match A::numeral(trim(input)) {
            Some(value) => if A::below(A::integer(0), value) {
                Some(value)
            } else {
                None
            },
            None => None,
        },
    }
}

fn read_mass<A: Arithmetic>(word: &Vec<char>) -> (mass: Option<A::Number>)
    requires
        lawful::<A>(),
    ensures
        mass == mass_in_word::<A>(word@),
{
    let trimmed: Vec<char> = trim_chars(word);
    let bare: Vec<char> = trim_chars_where(
        &trimmed,
        is_ascii_punctuation,
        Ghost(|c: char| ascii_punctuation(c)),
    );
    let text: Vec<char> = to_lower_case(&bare);
    let length: usize = text.len();
    if length <= 1 || text[length - 1] != 'g' {
        return None;
    }
    let milligrams: Vec<char> = chars_of("mg");
    proof {
        reveal_strlit("mg");
    }
    if stands_at(&text, &milligrams, length - 2) {
        return None;
    }
    let number: Vec<char> = part(&text, 0, length - 1);
    assert(number@ == text@.drop_last());
    match parse::<A>(string_of(&number).as_str()) {
        Some(value) => if is_finite::<A>(value) && is_below::<A>(from_integer::<A>(0), value) {
            Some(value)
        } else {
            None
        },
        None => None,
    }
}

/// Finds the mass in grams that an input gives.
pub fn extract_mass_g<A: Arithmetic>(input: &str) -> (mass: Option<A::Number>)
    requires
        lawful::<A>(),
    ensures
        mass == mass_in::<A>(input@),
{
    let chars: Vec<char> = chars_of(input);
    let words: Vec<Vec<char>> = split_chars(
        &chars,
        is_white_space,
        Ghost(|c: char| white_space(c)),
    );
    let ghost all = char_texts(words@);
    assert(all.skip(0) == all);
    for i in 0..words.len()
        invariant
            lawful::<A>(),
            chars@ == input@,
            all == char_texts(words@),
            all == split_where(input@, |c: char| white_space(c)),
            first_mass::<A>(all) == first_mass::<A>(all.skip(i as int)),
    {
        assert(all.skip(i as int)[0] == words@[i as int]@);
        assert(all.skip(i as int).drop_first() == all.skip(i + 1));
        let found: Option<A::Number> = read_mass::<A>(&words[i]);
        if found.is_some() {
            return found;
        }
    }
    match parse::<A>(string_of(&trim_chars(&chars)).as_str()) {
        Some(value) => if is_below::<A>(from_integer::<A>(0), value) {
            Some(value)
        } else {
            None
        },
        None => None,
    }
}

/// Law: the formulas found in an input are formulas, no two are the same, and every piece of the
/// input that holds a formula is among them.
pub proof fn law_valid_formulas<A: Arithmetic>(input: Seq<char>)
    ensures
        valid_formulas::<A>(input).no_duplicates(),
        forall|i: int|
            0 <= i < valid_formulas::<A>(input).len() ==> is_formula::<A>(
                #[trigger] valid_formulas::<A>(input)[i],
            ),
        forall|k: int|
            0 <= k < formula_pieces(input).len() && is_formula::<A>(
                candidate(#[trigger] formula_pieces(input)[k]),
            ) ==> valid_formulas::<A>(input).contains(candidate(formula_pieces(input)[k])),
{
    lemma_formulas_in::<A>(formula_pieces(input));
}

proof fn lemma_formulas_in<A: Arithmetic>(pieces: Seq<Seq<char>>)
    ensures
        formulas_in::<A>(pieces).no_duplicates(),
        forall|i: int|
            0 <= i < formulas_in::<A>(pieces).len() ==> is_formula::<A>(
                #[trigger] formulas_in::<A>(pieces)[i],
            ),
        forall|k: int|
            0 <= k < pieces.len() && is_formula::<A>(candidate(#[trigger] pieces[k]))
                ==> formulas_in::<A>(pieces).contains(candidate(pieces[k])),
    decreases pieces.len(),
{
    if pieces.len() > 0 {
        let fewer = pieces.drop_last();
        lemma_formulas_in::<A>(fewer);
        let before = formulas_in::<A>(fewer);
        let now = formulas_in::<A>(pieces);
        let last = candidate(pieces.last());
        assert forall|k: int|
            0 <= k < pieces.len() && is_formula::<A>(
                candidate(#[trigger] pieces[k]),
            ) implies now.contains(candidate(pieces[k])) by {
            if k < fewer.len() {
                assert(fewer[k] == pieces[k]);
                let i = choose|i: int| 0 <= i < before.len() && before[i] == candidate(fewer[k]);
                assert(now[i] == before[i]);
            } else if now.len() > before.len() {
                assert(now[before.len() as int] == last);
            }
        }
    }
}

} // verus!
