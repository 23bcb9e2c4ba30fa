//! Chemical formulas and the compounds that they denote.
//!
//! A formula is a run of element symbols and bracketed groups, each with an optional count: a
//! whole or decimal number, or a fraction of two such numbers.

use vstd::prelude::*;

use crate::arithmetic::{from_integer, is_at_most, is_finite, lawful, over, parse, plus, times, Arithmetic, Machine, Numerals};
use crate::elements::{atomic_weight, weight_of};
use crate::formula_laws::{law_compound, law_with_group};
use crate::text::{ascii_digit, ascii_lowercase, ascii_uppercase, chars_of, comes_before, is_ascii_digit, is_ascii_lowercase, is_ascii_uppercase, is_text, part, precedes, string_of, trim, trim_chars};

verus! {

/// How many atoms of an element a compound holds.
#[derive(Debug, Clone)]
pub struct AtomCount<N> {
    pub element: String,
    pub count: N,
}

impl<N> View for AtomCount<N> {
    type V = (Seq<char>, N);

    open spec fn view(&self) -> (Seq<char>, N) {
        (self.element@, self.count)
    }
}

/// The element counts that a vector holds.
pub open spec fn atoms_of<N>(entries: Seq<AtomCount<N>>) -> Seq<(Seq<char>, N)> {
    entries.map_values(|entry: AtomCount<N>| entry@)
}

/// Whether the elements stand in ascending order, each once.
pub open spec fn ordered<N>(atoms: Seq<(Seq<char>, N)>) -> bool {
    forall|i: int, j: int|
        0 <= i < j < atoms.len() ==> precedes((#[trigger] atoms[i]).0, (#[trigger] atoms[j]).0)
}

/// The first count given for an element, if there is one.
pub open spec fn count_in<N>(atoms: Seq<(Seq<char>, N)>, element: Seq<char>) -> Option<N>
    decreases atoms.len(),
{
    if atoms.len() == 0 {
        None
    } else if atoms[0].0 == element {
        Some(atoms[0].1)
    } else {
        count_in(atoms.drop_first(), element)
    }
}

/// The count of an element, or zero.
pub open spec fn count_or_zero<M: Numerals>(
    atoms: Seq<(Seq<char>, M::Number)>,
    element: Seq<char>,
) -> M::Number {
    match count_in(atoms, element) {
        Some(count) => count,
        None => M::integer(0),
    }
}

/// A compound: a formula, the element counts that it denotes, and its molar mass in grams per
/// mole.
#[derive(Debug, Clone)]
pub struct Compound<N> {
    pub formula: String,
    pub atoms: Vec<AtomCount<N>>,
    pub molar_mass: N,
}

/// What a [`Compound`] is.
pub struct Substance<N> {
    pub formula: Seq<char>,
    pub atoms: Seq<(Seq<char>, N)>,
    pub molar_mass: N,
}

impl<N> Substance<N> {
    /// Whether the elements stand in order, each once.
    pub open spec fn well_formed(self) -> bool {
        ordered(self.atoms)
    }
}

impl<N> View for Compound<N> {
    type V = Substance<N>;

    open spec fn view(&self) -> Substance<N> {
        Substance {
            formula: self.formula@,
            atoms: atoms_of(self.atoms@),
            molar_mass: self.molar_mass,
        }
    }
}

/// Looks up the count of an element.
pub fn find_count<N: Copy>(atoms: &Vec<AtomCount<N>>, element: &str) -> (r: Option<N>)
    ensures
        r == count_in(atoms_of(atoms@), element@),
{
    let chars: Vec<char> = chars_of(element);
    let ghost all = atoms_of(atoms@);
    assert(all.skip(0) == all);
    for i in 0..atoms.len()
        invariant
            chars@ == element@,
            all == atoms_of(atoms@),
            count_in(all, element@) == count_in(all.skip(i as int), element@),
    {
        assert(all.skip(i as int)[0] == atoms@[i as int]@);
        if is_text(&chars, atoms[i].element.as_str()) {
            return Some(atoms[i].count);
        }
        assert(all.skip(i as int).drop_first() == all.skip(i + 1));
    }
    None
}

impl<N: Copy> Compound<N> {
    /// The count of an element in the compound, if it holds that element.
    pub fn count(&self, element: &str) -> (r: Option<N>)
        ensures
            r == count_in(self@.atoms, element@),
    {
        find_count(&self.atoms, element)
    }
}

/// The element counts with a further count added for an element. An element that was missing
/// starts from zero and takes its place in the order.
pub open spec fn with_count<M: Numerals>(
    atoms: Seq<(Seq<char>, M::Number)>,
    element: Seq<char>,
    count: M::Number,
) -> Seq<(Seq<char>, M::Number)>
    decreases atoms.len(),
{
    if atoms.len() == 0 {
        seq![(element, M::sum(M::integer(0), count))]
    } else if precedes(atoms.last().0, element) {
        atoms.push((element, M::sum(M::integer(0), count)))
    } else if atoms.last().0 == element {
        atoms.drop_last().push((element, M::sum(atoms.last().1, count)))
    } else {
        with_count::<M>(atoms.drop_last(), element, count).push(atoms.last())
    }
}

/// The element counts with the counts of a group added, each times the multiplier of the group.
pub open spec fn with_group<M: Numerals>(
    atoms: Seq<(Seq<char>, M::Number)>,
    group: Seq<(Seq<char>, M::Number)>,
    multiplier: M::Number,
) -> Seq<(Seq<char>, M::Number)>
    decreases group.len(),
{
    if group.len() == 0 {
        atoms
    } else {
        with_count::<M>(
            with_group::<M>(atoms, group.drop_last(), multiplier),
            group.last().0,
            M::product(group.last().1, multiplier),
        )
    }
}

fn add_count<A: Arithmetic>(
    atoms: &mut Vec<AtomCount<A::Number>>,
    element: &str,
    count: A::Number,
)
    requires
        lawful::<A>(),
    ensures
        atoms_of(final(atoms)@) == with_count::<Machine<A>>(
            atoms_of(old(atoms)@),
            element@,
            count,
        ),
{
    let ghost before = atoms_of(atoms@);
    let chars: Vec<char> = chars_of(element);
    let mut place: usize = atoms.len();
    assert(before.take(place as int) == before);
    assert(before.skip(place as int) == Seq::<(Seq<char>, A::Number)>::empty());
    while place > 0 && !comes_before(atoms[place - 1].element.as_str(), element)
        invariant
            lawful::<A>(),
            atoms@ == old(atoms)@,
            before == atoms_of(atoms@),
            chars@ == element@,
            place <= atoms@.len(),
            with_count::<Machine<A>>(before, element@, count) == with_count::<Machine<A>>(
                before.take(place as int),
                element@,
                count,
            ) + before.skip(place as int),
        decreases place,
    {
        let ghost front = before.take(place as int);
        assert(front.drop_last() == before.take(place - 1));
        assert(front.last() == atoms@[place - 1]@);
        if is_text(&chars, atoms[place - 1].element.as_str()) {
            let total: A::Number = plus::<A>(atoms[place - 1].count, count);
            let entry: AtomCount<A::Number> = AtomCount { element: element.to_string(), count: total };
            proof {
                assert(atoms_of(atoms@.update(place - 1, entry)) == front.drop_last().push(
                    (element@, total),
                ) + before.skip(place as int));
            }
            atoms.set(place - 1, entry);
            return ;
        }
        proof {
            assert(with_count::<Machine<A>>(front.drop_last(), element@, count).push(front.last())
                + before.skip(place as int) == with_count::<Machine<A>>(
                front.drop_last(),
                element@,
                count,
            ) + before.skip(place - 1));
        }
        place -= 1;
    }
    let total: A::Number = plus::<A>(from_integer::<A>(0), count);
    let entry: AtomCount<A::Number> = AtomCount { element: element.to_string(), count: total };
    proof {
        let front = before.take(place as int);
        if place > 0 {
            assert(front.last() == atoms@[place - 1]@);
        }
        assert(with_count::<Machine<A>>(front, element@, count) == front.push((element@, total)));
        assert(atoms_of(atoms@.insert(place as int, entry)) == front.push((element@, total))
            + before.skip(place as int));
    }
    atoms.insert(place, entry);
}

/// Adds the counts of a group, each times a scale.
pub fn add_scaled<A: Arithmetic>(
    target: &mut Vec<AtomCount<A::Number>>,
    source: &Vec<AtomCount<A::Number>>,
    scale: A::Number,
)
    requires
        lawful::<A>(),
    ensures
        atoms_of(final(target)@) == with_group::<Machine<A>>(
            atoms_of(old(target)@),
            atoms_of(source@),
            scale,
        ),
        ordered(atoms_of(old(target)@)) && ordered(atoms_of(source@)) ==> ordered(
            atoms_of(final(target)@),
        ),
{
    let ghost group = atoms_of(source@);
    let ghost start = atoms_of(target@);
    for i in 0..source.len()
        invariant
            lawful::<A>(),
            group == atoms_of(source@),
            atoms_of(target@) == with_group::<Machine<A>>(start, group.take(i as int), scale),
    {
        assert(group.take(i + 1).drop_last() == group.take(i as int));
        assert(group.take(i + 1).last() == source@[i as int]@);
        let amount: A::Number = times::<A>(source[i].count, scale);
        add_count::<A>(target, source[i].element.as_str(), amount);
    }
    assert(group.take(group.len() as int) == group);
    proof {
        if ordered(start) && ordered(group) {
            law_with_group::<Machine<A>>(start, group, scale, Seq::empty());
        }
    }
}

/// Why a text is not a formula.
#[derive(Debug, Clone)]
pub enum FormulaError {
    Empty,
    Hydrate,
    UnknownElement(String),
    UnreadableCharacter(char),
    MismatchedBracket,
    UnclosedBracket,
    TooManyPoints,
    UnreadableNumber,
    NotPositive,
    MissingDenominator,
    ZeroDenominator,
    NoElements,
}

/// What a [`FormulaError`] says.
pub enum FormulaFault {
    Empty,
    Hydrate,
    UnknownElement(Seq<char>),
    UnreadableCharacter(char),
    MismatchedBracket,
    UnclosedBracket,
    TooManyPoints,
    UnreadableNumber,
    NotPositive,
    MissingDenominator,
    ZeroDenominator,
    NoElements,
}

impl View for FormulaError {
    type V = FormulaFault;

    open spec fn view(&self) -> FormulaFault {
        match *self {
            FormulaError::Empty => FormulaFault::Empty,
            FormulaError::Hydrate => FormulaFault::Hydrate,
            FormulaError::UnknownElement(element) => FormulaFault::UnknownElement(element@),
            FormulaError::UnreadableCharacter(c) => FormulaFault::UnreadableCharacter(c),
            FormulaError::MismatchedBracket => FormulaFault::MismatchedBracket,
            FormulaError::UnclosedBracket => FormulaFault::UnclosedBracket,
            FormulaError::TooManyPoints => FormulaFault::TooManyPoints,
            FormulaError::UnreadableNumber => FormulaFault::UnreadableNumber,
            FormulaError::NotPositive => FormulaFault::NotPositive,
            FormulaError::MissingDenominator => FormulaFault::MissingDenominator,
            FormulaError::ZeroDenominator => FormulaFault::ZeroDenominator,
            FormulaError::NoElements => FormulaFault::NoElements,
        }
    }
}

impl FormulaFault {
    /// The fault in words.
    pub open spec fn words(self) -> Seq<char> {
        match self {
            FormulaFault::Empty => "空の化学式です"@,
            FormulaFault::Hydrate => "水和物やドット区切りの式は未対応です"@,
            FormulaFault::UnknownElement(element) => "未知の元素記号です: "@ + element,
            FormulaFault::UnreadableCharacter(c) => "化学式として読めない文字です: "@.push(c),
            FormulaFault::MismatchedBracket => "閉じ括弧の対応が不正です"@,
            FormulaFault::UnclosedBracket => "括弧が閉じていません"@,
            FormulaFault::TooManyPoints => "数値の小数点が多すぎます"@,
            FormulaFault::UnreadableNumber => "invalid float literal"@,
            FormulaFault::NotPositive => "元素数は0より大きい必要があります"@,
            FormulaFault::MissingDenominator => "分数の分母がありません"@,
            FormulaFault::ZeroDenominator => "分数の分母は0より大きい必要があります"@,
            FormulaFault::NoElements => "元素が含まれていません"@,
        }
    }
}

impl FormulaError {
    /// The error in words.
    pub fn message(&self) -> (text: String)
        ensures
            text@ == self@.words(),
    {
        match self {
            FormulaError::Empty => "空の化学式です".to_string(),
            FormulaError::Hydrate => "水和物やドット区切りの式は未対応です".to_string(),
            FormulaError::UnknownElement(element) => {
                let mut text: String = "未知の元素記号です: ".to_string();
                text.append(element.as_str());
                text
            },
            FormulaError::UnreadableCharacter(c) => {
                let mut text: String = "化学式として読めない文字です: ".to_string();
                text.push(*c);
                text
            },
            FormulaError::MismatchedBracket => "閉じ括弧の対応が不正です".to_string(),
            FormulaError::UnclosedBracket => "括弧が閉じていません".to_string(),
            FormulaError::TooManyPoints => "数値の小数点が多すぎます".to_string(),
            FormulaError::UnreadableNumber => "invalid float literal".to_string(),
            FormulaError::NotPositive => "元素数は0より大きい必要があります".to_string(),
            FormulaError::MissingDenominator => "分数の分母がありません".to_string(),
            FormulaError::ZeroDenominator => "分数の分母は0より大きい必要があります".to_string(),
            FormulaError::NoElements => "元素が含まれていません".to_string(),
        }
    }
}

/// The characters that separate the parts of a hydrate.
pub open spec fn hydrate_separator(c: char) -> bool {
    c == '・' || c == '·' || c == '•'
}

pub fn is_hydrate_separator(c: char) -> (r: bool)
    ensures
        r == hydrate_separator(c),
{
    c == '・' || c == '·' || c == '•'
}

pub open spec fn opening_bracket(c: char) -> bool {
    c == '(' || c == '[' || c == '{'
}

pub open spec fn closing_bracket(c: char) -> bool {
    c == ')' || c == ']' || c == '}'
}

/// The bracket that closes what an opening bracket opens.
pub open spec fn closing_of(open: char) -> char
    recommends
        opening_bracket(open),
{
    if open == '(' {
        ')'
    } else if open == '[' {
        ']'
    } else {
        '}'
    }
}

/// The closing bracket that matches an opening one.
pub fn matching_close_bracket(open: char) -> (close: char)
    requires
        opening_bracket(open),
    ensures
        close == closing_of(open),
{
    match open {
        '(' => ')',
        '[' => ']',
        _ => '}',
    }
}

/// Where the run of digits that starts at an index ends.
pub open spec fn digits_end(chars: Seq<char>, i: int) -> int
    decreases chars.len() - i,
{
    if 0 <= i < chars.len() && ascii_digit(chars[i]) {
        digits_end(chars, i + 1)
    } else {
        i
    }
}

/// Whether a decimal point with a digit behind it stands at an index.
pub open spec fn decimal_point_at(chars: Seq<char>, i: int) -> bool {
    &&& 0 <= i
    &&& i + 1 < chars.len()
    &&& chars[i] == '.'
    &&& ascii_digit(chars[i + 1])
}

/// Where the decimal number that starts at an index ends. A number with a second decimal point
/// has no end.
pub open spec fn decimal_end(chars: Seq<char>, start: int) -> Option<int> {
    let whole = digits_end(chars, start);
    if whole > start && decimal_point_at(chars, whole) {
        let end = digits_end(chars, whole + 1);
        if decimal_point_at(chars, end) {
            None
        } else {
            Some(end)
        }
    } else {
        Some(whole)
    }
}

/// The decimal number at an index, if there is one, and where it ends.
pub open spec fn decimal_at<A: Arithmetic>(chars: Seq<char>, start: int) -> Result<
    (Option<A::Number>, int),
    FormulaFault,
> {
    match decimal_end(chars, start) {
        None => Err(FormulaFault::TooManyPoints),
        Some(end) => if end == start {
            Ok((None, start))
        } else {
            match A::numeral(chars.subrange(start, end)) {
                None => Err(FormulaFault::UnreadableNumber),
                Some(value) => if !A::finite(value) || A::at_most(value, A::integer(0)) {
                    Err(FormulaFault::NotPositive)
                } else {
                    Ok((Some(value), end))
                },
            }
        },
    }
}

/// The count at an index, and where it ends. Where no number stands, the count is one.
pub open spec fn count_at<A: Arithmetic>(chars: Seq<char>, start: int) -> Result<
    (A::Number, int),
    FormulaFault,
> {
    match decimal_at::<A>(chars, start) {
        Err(fault) => Err(fault),
        Ok((None, end)) => Ok((A::integer(1), end)),
        Ok((Some(numerator), end)) => if end < chars.len() && chars[end] == '/' {
            match decimal_at::<A>(chars, end + 1) {
                Err(fault) => Err(fault),
                Ok((None, _)) => Err(FormulaFault::MissingDenominator),
                Ok((Some(denominator), stop)) => if A::at_most(denominator, A::integer(0)) {
                    Err(FormulaFault::ZeroDenominator)
                } else {
                    Ok((A::quotient(numerator, denominator), stop))
                },
            }
        } else {
            Ok((numerator, end))
        },
    }
}

/// Where the element symbol that starts at an index ends.
pub open spec fn symbol_end(chars: Seq<char>, start: int) -> int {
    if start + 1 < chars.len() && ascii_lowercase(chars[start + 1]) {
        start + 2
    } else {
        start + 1
    }
}

/// Reads a group from an index on, with the element counts that have been read so far, up to the
/// closing bracket `stop` or, without one, to the end of the text. Yields the element counts and
/// the index behind the group.
pub open spec fn group_at<A: Arithmetic>(
    chars: Seq<char>,
    i: int,
    atoms: Seq<(Seq<char>, A::Number)>,
    stop: Option<char>,
) -> Result<(Seq<(Seq<char>, A::Number)>, int), FormulaFault>
    decreases chars.len() - i,
{
    if i >= chars.len() {
        match stop {
            Some(_) => Err(FormulaFault::UnclosedBracket),
            None => Ok((atoms, i)),
        }
    } else if opening_bracket(chars[i]) {
        match group_at::<A>(chars, i + 1, Seq::empty(), Some(closing_of(chars[i]))) {
            Err(fault) => Err(fault),
            Ok((group, close)) => match count_at::<A>(chars, close) {
                Err(fault) => Err(fault),
                // A group and its count always end behind where they start, within the text.
                Ok((multiplier, next)) => if i < next <= chars.len() {
                    group_at::<A>(
                        chars,
                        next,
                        with_group::<Machine<A>>(atoms, group, multiplier),
                        stop,
                    )
                } else {
                    Err(FormulaFault::UnclosedBracket)
                },
            },
        }
    } else if closing_bracket(chars[i]) {
        if Some(chars[i]) == stop {
            Ok((atoms, i + 1))
        } else {
            Err(FormulaFault::MismatchedBracket)
        }
    } else if ascii_uppercase(chars[i]) {
        let symbol = chars.subrange(i, symbol_end(chars, i));
        match weight_of::<Machine<A>>(symbol) {
            None => Err(FormulaFault::UnknownElement(symbol)),
            Some(_) => match count_at::<A>(chars, symbol_end(chars, i)) {
                Err(fault) => Err(fault),
                Ok((count, next)) => if i < next <= chars.len() {
                    group_at::<A>(chars, next, with_count::<Machine<A>>(atoms, symbol, count), stop)
                } else {
                    Err(FormulaFault::UnclosedBracket)
                },
            },
        }
    } else {
        Err(FormulaFault::UnreadableCharacter(chars[i]))
    }
}

pub proof fn lemma_digits_end(chars: Seq<char>, i: int)
    requires
        0 <= i <= chars.len(),
    ensures
        i <= digits_end(chars, i) <= chars.len(),
    decreases chars.len() - i,
{
    if i < chars.len() && ascii_digit(chars[i]) {
        lemma_digits_end(chars, i + 1);
    }
}

pub proof fn lemma_decimal_bounds<A: Arithmetic>(chars: Seq<char>, start: int)
    requires
        0 <= start <= chars.len(),
    ensures
        decimal_end(chars, start) matches Some(end) ==> start <= end <= chars.len(),
        decimal_at::<A>(chars, start) matches Ok((_, end)) ==> start <= end <= chars.len(),
{
    lemma_digits_end(chars, start);
    let whole = digits_end(chars, start);
    if whole + 1 <= chars.len() {
        lemma_digits_end(chars, whole + 1);
    }
}

pub proof fn lemma_count_bounds<A: Arithmetic>(chars: Seq<char>, start: int)
    requires
        0 <= start <= chars.len(),
    ensures
        count_at::<A>(chars, start) matches Ok((_, end)) ==> start <= end <= chars.len(),
{
    lemma_decimal_bounds::<A>(chars, start);
    if let Ok((Some(_), end)) = decimal_at::<A>(chars, start) {
        if end < chars.len() {
            lemma_decimal_bounds::<A>(chars, end + 1);
        }
    }
}

pub proof fn lemma_group_bounds<A: Arithmetic>(
    chars: Seq<char>,
    i: int,
    atoms: Seq<(Seq<char>, A::Number)>,
    stop: Option<char>,
)
    requires
        0 <= i <= chars.len(),
    ensures
        group_at::<A>(chars, i, atoms, stop) matches Ok((_, end)) ==> i <= end <= chars.len() && (
        stop is Some ==> i < end) && (stop is None ==> end == chars.len()),
    decreases chars.len() - i,
{
    if i < chars.len() {
        if opening_bracket(chars[i]) {
            lemma_group_bounds::<A>(chars, i + 1, Seq::empty(), Some(closing_of(chars[i])));
            if let Ok((group, close)) = group_at::<A>(
                chars,
                i + 1,
                Seq::empty(),
                Some(closing_of(chars[i])),
            ) {
                lemma_count_bounds::<A>(chars, close);
                if let Ok((multiplier, next)) = count_at::<A>(chars, close) {
                    lemma_group_bounds::<A>(
                        chars,
                        next,
                        with_group::<Machine<A>>(atoms, group, multiplier),
                        stop,
                    );
                }
            }
        } else if closing_bracket(chars[i]) {
        } else if ascii_uppercase(chars[i]) {
            let symbol = chars.subrange(i, symbol_end(chars, i));
            lemma_count_bounds::<A>(chars, symbol_end(chars, i));
            if let Ok((count, next)) = count_at::<A>(chars, symbol_end(chars, i)) {
                lemma_group_bounds::<A>(
                    chars,
                    next,
                    with_count::<Machine<A>>(atoms, symbol, count),
                    stop,
                );
            }
        }
    }
}

/// A reader of formulas: the characters and the index of the next one.
pub struct FormulaParser<'a> {
    pub chars: &'a Vec<char>,
    pub index: usize,
}

impl<'a> FormulaParser<'a> {
    /// Whether the index lies within the characters or at their end.
    pub open spec fn well_formed(&self) -> bool {
        self.index <= self.chars@.len()
    }

    fn skip_digits(&mut self)
        requires
            old(self).well_formed(),
        ensures
            final(self).well_formed(),
            final(self).chars == old(self).chars,
            final(self).index == digits_end(old(self).chars@, old(self).index as int),
    {
        let ghost start: int = self.index as int;
        while self.index < self.chars.len() && is_ascii_digit(self.chars[self.index])
            invariant
                self.well_formed(),
                self.chars == old(self).chars,
                digits_end(self.chars@, start) == digits_end(self.chars@, self.index as int),
            decreases self.chars@.len() - self.index,
        {
            self.index += 1;
        }
    }

    fn at_decimal_point(&self) -> (r: bool)
        requires
            self.well_formed(),
        ensures
            r == decimal_point_at(self.chars@, self.index as int),
    {
        let length: usize = self.chars.len();
        self.index < length && length - self.index > 1 && self.chars[self.index] == '.'
            && is_ascii_digit(self.chars[self.index + 1])
    }

    /// Reads a decimal number, if one stands here.
    fn parse_decimal_number<A: Arithmetic>(&mut self) -> (r: Result<
        Option<A::Number>,
        FormulaError,
    >)
        requires
            lawful::<A>(),
            old(self).well_formed(),
        ensures
            final(self).well_formed(),
            final(self).chars == old(self).chars,
            match r {
                Ok(value) => decimal_at::<A>(old(self).chars@, old(self).index as int) == Ok::<
                    (Option<A::Number>, int),
                    FormulaFault,
                >((value, final(self).index as int)),
                Err(error) => decimal_at::<A>(old(self).chars@, old(self).index as int) == Err::<
                    (Option<A::Number>, int),
                    FormulaFault,
                >(error@),
            },
    {
        let start: usize = self.index;
        proof {
            lemma_digits_end(self.chars@, start as int);
        }
        self.skip_digits();
        let length: usize = self.chars.len();
        if self.index < length && self.index > start && self.at_decimal_point() {
            self.index += 1;
            proof {
                lemma_digits_end(self.chars@, self.index as int);
            }
            self.skip_digits();
            if self.at_decimal_point() {
                return Err(FormulaError::TooManyPoints);
            }
        }
        if start == self.index {
            return Ok(None);
        }
        let digits: Vec<char> = part(self.chars, start, self.index);
        let text: String = string_of(&digits);
        match parse::<A>(text.as_str()) {
            None => Err(FormulaError::UnreadableNumber),
            Some(value) => if !is_finite::<A>(value) || is_at_most::<A>(
                value,
                from_integer::<A>(0),
            ) {
                Err(FormulaError::NotPositive)
            } else {
                Ok(Some(value))
            },
        }
    }

    /// Reads a count: a number, a fraction of two numbers, or nothing, which counts as one.
    fn parse_number<A: Arithmetic>(&mut self) -> (r: Result<A::Number, FormulaError>)
        requires
            lawful::<A>(),
            old(self).well_formed(),
        ensures
            final(self).well_formed(),
            final(self).chars == old(self).chars,
            match r {
                Ok(value) => count_at::<A>(old(self).chars@, old(self).index as int) == Ok::<
                    (A::Number, int),
                    FormulaFault,
                >((value, final(self).index as int)),
                Err(error) => count_at::<A>(old(self).chars@, old(self).index as int) == Err::<
                    (A::Number, int),
                    FormulaFault,
                >(error@),
            },
    {
        let numerator: A::Number = match self.parse_decimal_number::<A>() {
            Err(error) => {
                return Err(error);
            },
            Ok(None) => {
                return Ok(from_integer::<A>(1));
            },
            Ok(Some(numerator)) => numerator,
        };
        if self.index < self.chars.len() && self.chars[self.index] == '/' {
            self.index += 1;
            match self.parse_decimal_number::<A>() {
                Err(error) => Err(error),
                Ok(None) => Err(FormulaError::MissingDenominator),
                Ok(Some(denominator)) => if is_at_most::<A>(denominator, from_integer::<A>(0)) {
                    Err(FormulaError::ZeroDenominator)
                } else {
                    Ok(over::<A>(numerator, denominator))
                },
            }
        } else {
            Ok(numerator)
        }
    }

    /// Reads an element symbol: one character, and a lower-case letter if one follows.
    pub fn parse_element(&mut self) -> (element: String)
        requires
            old(self).index < old(self).chars@.len(),
        ensures
            final(self).well_formed(),
            final(self).chars == old(self).chars,
            final(self).index == symbol_end(old(self).chars@, old(self).index as int),
            element@ == old(self).chars@.subrange(
                old(self).index as int,
                symbol_end(old(self).chars@, old(self).index as int),
            ),
    {
        let start: usize = self.index;
        let length: usize = self.chars.len();
        assert(start < length);
        self.index += 1;
        if self.index < length && is_ascii_lowercase(self.chars[self.index]) {
            self.index += 1;
        }
        string_of(&part(self.chars, start, self.index))
    }

    /// Reads a group up to its closing bracket or, without one, to the end of the text.
    fn parse_group<A: Arithmetic>(&mut self, stop_on_close: Option<char>) -> (r: Result<
        Vec<AtomCount<A::Number>>,
        FormulaError,
    >)
        requires
            lawful::<A>(),
            old(self).well_formed(),
        ensures
            final(self).well_formed(),
            final(self).chars == old(self).chars,
            match r {
                Ok(atoms) => group_at::<A>(
                    old(self).chars@,
                    old(self).index as int,
                    Seq::empty(),
                    stop_on_close,
                ) == Ok::<(Seq<(Seq<char>, A::Number)>, int), FormulaFault>(
                    (atoms_of(atoms@), final(self).index as int),
                ),
                Err(error) => group_at::<A>(
                    old(self).chars@,
                    old(self).index as int,
                    Seq::empty(),
                    stop_on_close,
                ) == Err::<(Seq<(Seq<char>, A::Number)>, int), FormulaFault>(error@),
            },
        decreases old(self).chars@.len() - old(self).index,
    {
        let mut atoms: Vec<AtomCount<A::Number>> = Vec::new();
        let ghost start: int = self.index as int;
        let ghost chars: Seq<char> = self.chars@;
        assert(atoms_of(atoms@) == Seq::<(Seq<char>, A::Number)>::empty());
        while self.index < self.chars.len()
            invariant
                lawful::<A>(),
                self.well_formed(),
                self.chars == old(self).chars,
                chars == self.chars@,
                start == old(self).index,
                start <= self.index,
                group_at::<A>(chars, start, Seq::empty(), stop_on_close) == group_at::<A>(
                    chars,
                    self.index as int,
                    atoms_of(atoms@),
                    stop_on_close,
                ),
            decreases self.chars@.len() - self.index,
        {
            let c: char = self.chars[self.index];
            let ghost here: int = self.index as int;
            if c == '(' || c == '[' || c == '{' {
                let close: char = matching_close_bracket(c);
                self.index += 1;
                proof {
                    lemma_group_bounds::<A>(chars, here + 1, Seq::empty(), Some(close));
                }
                let group: Vec<AtomCount<A::Number>> = match self.parse_group::<A>(Some(close)) {
                    Err(error) => {
                        return Err(error);
                    },
                    Ok(group) => group,
                };
                proof {
                    lemma_count_bounds::<A>(chars, self.index as int);
                }
                let multiplier: A::Number = match self.parse_number::<A>() {
                    Err(error) => {
                        return Err(error);
                    },
                    Ok(multiplier) => multiplier,
                };
                add_scaled::<A>(&mut atoms, &group, multiplier);
            } else if c == ')' || c == ']' || c == '}' {
                match stop_on_close {
                    Some(stop) => {
                        if c == stop {
                            self.index += 1;
                            return Ok(atoms);
                        }
                    },
                    None => {},
                }
                return Err(FormulaError::MismatchedBracket);
            } else if is_ascii_uppercase(c) {
                let element: String = self.parse_element();
                if atomic_weight::<A>(element.as_str()).is_none() {
                    return Err(FormulaError::UnknownElement(element));
                }
                proof {
                    lemma_count_bounds::<A>(chars, self.index as int);
                }
                let count: A::Number = match self.parse_number::<A>() {
                    Err(error) => {
                        return Err(error);
                    },
                    Ok(count) => count,
                };
                add_count::<A>(&mut atoms, element.as_str(), count);
            } else {
                return Err(FormulaError::UnreadableCharacter(c));
            }
        }
        match stop_on_close {
            Some(_) => Err(FormulaError::UnclosedBracket),
            None => Ok(atoms),
        }
    }
}

/// The molar mass of what holds the given element counts: the sum, in order, of each element's
/// weight times its count.
pub open spec fn mass_of<M: Numerals>(atoms: Seq<(Seq<char>, M::Number)>) -> Result<
    M::Number,
    FormulaFault,
>
    decreases atoms.len(),
{
    if atoms.len() == 0 {
        Ok(M::integer(0))
    } else {
        match mass_of::<M>(atoms.drop_last()) {
            Err(fault) => Err(fault),
            Ok(mass) => match weight_of::<M>(atoms.last().0) {
                None => Err(FormulaFault::UnknownElement(atoms.last().0)),
                Some(weight) => Ok(M::sum(mass, M::product(weight, atoms.last().1))),
            },
        }
    }
}

proof fn lemma_mass_fault_spreads<M: Numerals>(atoms: Seq<(Seq<char>, M::Number)>, i: int)
    requires
        0 <= i <= atoms.len(),
        mass_of::<M>(atoms.take(i)) is Err,
    ensures
        mass_of::<M>(atoms) == mass_of::<M>(atoms.take(i)),
    decreases atoms.len(),
{
    if i < atoms.len() {
        assert(atoms.drop_last().take(i) == atoms.take(i));
        lemma_mass_fault_spreads::<M>(atoms.drop_last(), i);
    } else {
        assert(atoms.take(i) == atoms);
    }
}

/// The molar mass, in grams per mole.
pub fn molar_mass<A: Arithmetic>(atoms: &Vec<AtomCount<A::Number>>) -> (r: Result<
    A::Number,
    FormulaError,
>)
    requires
        lawful::<A>(),
    ensures
        match r {
            Ok(mass) => mass_of::<Machine<A>>(atoms_of(atoms@)) == Ok::<A::Number, FormulaFault>(
                mass,
            ),
            Err(error) => mass_of::<Machine<A>>(atoms_of(atoms@)) == Err::<
                A::Number,
                FormulaFault,
            >(error@),
        },
{
    let ghost all = atoms_of(atoms@);
    let mut mass: A::Number = from_integer::<A>(0);
    for i in 0..atoms.len()
        invariant
            lawful::<A>(),
            all == atoms_of(atoms@),
            mass_of::<Machine<A>>(all.take(i as int)) == Ok::<A::Number, FormulaFault>(mass),
    {
        assert(all.take(i + 1).drop_last() == all.take(i as int));
        assert(all.take(i + 1).last() == atoms@[i as int]@);
        match atomic_weight::<A>(atoms[i].element.as_str()) {
            None => {
                proof {
                    lemma_mass_fault_spreads::<Machine<A>>(all, i + 1);
                }
                return Err(FormulaError::UnknownElement(atoms[i].element.clone()));
            },
            Some(weight) => {
                mass = plus::<A>(mass, times::<A>(weight, atoms[i].count));
            },
        }
    }
    assert(all.take(all.len() as int) == all);
    Ok(mass)
}

/// The compound that a text denotes, or why it denotes none.
pub open spec fn compound_of<A: Arithmetic>(text: Seq<char>) -> Result<
    Substance<A::Number>,
    FormulaFault,
> {
    let formula = trim(text);
    if formula.len() == 0 {
        Err(FormulaFault::Empty)
    } else if exists|i: int| 0 <= i < formula.len() && hydrate_separator(#[trigger] formula[i]) {
        Err(FormulaFault::Hydrate)
    } else {
        match group_at::<A>(formula, 0, Seq::empty(), None) {
            Err(fault) => Err(fault),
            Ok((atoms, _)) => if atoms.len() == 0 {
                Err(FormulaFault::NoElements)
            } else {
                match mass_of::<Machine<A>>(atoms) {
                    Err(fault) => Err(fault),
                    Ok(molar_mass) => Ok(Substance { formula, atoms, molar_mass }),
                }
            },
        }
    }
}

/// What the result of reading a formula says.
pub open spec fn reading<N>(result: Result<Compound<N>, FormulaError>) -> Result<
    Substance<N>,
    FormulaFault,
> {
    match result {
        Ok(compound) => Ok(compound@),
        Err(error) => Err(error@),
    }
}

/// Reads a formula.
pub fn parse_compound<A: Arithmetic>(formula: &str) -> (r: Result<
    Compound<A::Number>,
    FormulaError,
>)
    requires
        lawful::<A>(),
    ensures
        reading(r) == compound_of::<A>(formula@),
        r matches Ok(compound) ==> compound@.well_formed(),
{
    proof {
        law_compound::<A>(formula@);
    }
    let all: Vec<char> = chars_of(formula);
    let chars: Vec<char> = trim_chars(&all);
    if chars.len() == 0 {
        return Err(FormulaError::Empty);
    }
    for i in 0..chars.len()
        invariant
            chars@ == trim(formula@),
            chars@.len() > 0,
            forall|k: int| 0 <= k < i ==> !hydrate_separator(#[trigger] chars@[k]),
    {
        if is_hydrate_separator(chars[i]) {
            return Err(FormulaError::Hydrate);
        }
    }
    let mut parser: FormulaParser = FormulaParser { chars: &chars, index: 0 };
    let atoms: Vec<AtomCount<A::Number>> = match parser.parse_group::<A>(None) {
        Err(error) => {
            return Err(error);
        },
        Ok(atoms) => atoms,
    };
    if atoms.len() == 0 {
        return Err(FormulaError::NoElements);
    }
    match molar_mass::<A>(&atoms) {
        Err(error) => Err(error),
        Ok(mass) => Ok(Compound { formula: string_of(&chars), atoms, molar_mass: mass }),
    }
}

} // verus!
