//! Texts as sequences of characters.

use vstd::prelude::*;

verus! {

/// `String::push` appends the character to the end of the string.
pub assume_specification[ String::push ](s: &mut String, c: char)
    ensures
        final(s)@ == old(s)@.push(c),
;

/// The characters of a text.
pub fn chars_of(text: &str) -> (chars: Vec<char>)
    ensures
        chars@ == text@,
{
    let mut chars: Vec<char> = Vec::new();
    for c in it: text.chars()
        invariant
            it.seq() == text@,
            chars@ == text@.take(it.index()),
    {
        chars.push(c);
    }
    assert(text@.take(text@.len() as int) == text@);
    chars
}

/// The text that consists of the given characters.
pub fn string_of(chars: &Vec<char>) -> (text: String)
    ensures
        text@ == chars@,
{
    let mut text = String::new();
    for i in 0..chars.len()
        invariant
            text@ == chars@.take(i as int),
    {
        text.push(chars[i]);
        assert(chars@.take(i + 1) == chars@.take(i as int).push(chars@[i as int]));
    }
    assert(chars@.take(chars@.len() as int) == chars@);
    text
}

/// Whether a text consists of the given characters.
pub fn is_text(chars: &Vec<char>, text: &str) -> (same: bool)
    ensures
        same == (chars@ == text@),
{
    let other: Vec<char> = chars_of(text);
    if chars.len() != other.len() {
        return false;
    }
    for i in 0..chars.len()
        invariant
            chars@.len() == other@.len(),
            other@ == text@,
            forall|k: int| 0 <= k < i ==> chars@[k] == other@[k],
    {
        if chars[i] != other[i] {
            return false;
        }
    }
    assert(chars@ == text@);
    true
}

/// The characters with the Unicode property `White_Space`.
pub open spec fn white_space(c: char) -> bool {
    ||| '\u{9}' <= c <= '\u{d}'
    ||| c == ' '
    ||| c == '\u{85}'
    ||| c == '\u{a0}'
    ||| c == '\u{1680}'
    ||| '\u{2000}' <= c <= '\u{200a}'
    ||| '\u{2028}' <= c <= '\u{2029}'
    ||| c == '\u{202f}'
    ||| c == '\u{205f}'
    ||| c == '\u{3000}'
}

pub fn is_white_space(c: char) -> (r: bool)
    ensures
        r == white_space(c),
{
    ('\u{9}' <= c && c <= '\u{d}') || c == ' ' || c == '\u{85}' || c == '\u{a0}' || c == '\u{1680}'
        || ('\u{2000}' <= c && c <= '\u{200a}') || ('\u{2028}' <= c && c <= '\u{2029}') || c
        == '\u{202f}' || c == '\u{205f}' || c == '\u{3000}'
}

pub open spec fn ascii_digit(c: char) -> bool {
    '0' <= c <= '9'
}

pub open spec fn ascii_uppercase(c: char) -> bool {
    'A' <= c <= 'Z'
}

pub open spec fn ascii_lowercase(c: char) -> bool {
    'a' <= c <= 'z'
}

pub open spec fn ascii_punctuation(c: char) -> bool {
    ||| '!' <= c <= '/'
    ||| ':' <= c <= '@'
    ||| '[' <= c <= '`'
    ||| '{' <= c <= '~'
}

pub fn is_ascii_digit(c: char) -> (r: bool)
    ensures
        r == ascii_digit(c),
{
    '0' <= c && c <= '9'
}

pub fn is_ascii_uppercase(c: char) -> (r: bool)
    ensures
        r == ascii_uppercase(c),
{
    'A' <= c && c <= 'Z'
}

pub fn is_ascii_lowercase(c: char) -> (r: bool)
    ensures
        r == ascii_lowercase(c),
{
    'a' <= c && c <= 'z'
}

pub fn is_ascii_punctuation(c: char) -> (r: bool)
    ensures
        r == ascii_punctuation(c),
{
    ('!' <= c && c <= '/') || (':' <= c && c <= '@') || ('[' <= c && c <= '`') || ('{' <= c && c
        <= '~')
}

/// The character, in lower case if it is an ASCII letter.
pub open spec fn lower_char(c: char) -> char {
    if ascii_uppercase(c) {
        (c as u8 + 32) as char
    } else {
        c
    }
}

/// The text with its ASCII letters in lower case.
pub open spec fn lower_case(text: Seq<char>) -> Seq<char> {
    text.map_values(|c: char| lower_char(c))
}

pub fn to_lower_case(chars: &Vec<char>) -> (lower: Vec<char>)
    ensures
        lower@ == lower_case(chars@),
{
    let mut lower: Vec<char> = Vec::new();
    for i in 0..chars.len()
        invariant
            lower@ == lower_case(chars@.take(i as int)),
    {
        let c: char = chars[i];
        if is_ascii_uppercase(c) {
            let code: u8 = c as u8;
            lower.push((code + 32) as char);
        } else {
            lower.push(c);
        }
        assert(lower_case(chars@.take(i + 1)) == lower_case(chars@.take(i as int)).push(
            lower_char(chars@[i as int]),
        ));
    }
    assert(chars@.take(chars@.len() as int) == chars@);
    lower
}

/// The text from its first character on that does not satisfy `drop`.
pub open spec fn trim_start(text: Seq<char>, drop: spec_fn(char) -> bool) -> Seq<char>
    decreases text.len(),
{
    if text.len() > 0 && drop(text[0]) {
        trim_start(text.drop_first(), drop)
    } else {
        text
    }
}

/// The text up to its last character that does not satisfy `drop`.
pub open spec fn trim_end(text: Seq<char>, drop: spec_fn(char) -> bool) -> Seq<char>
    decreases text.len(),
{
    if text.len() > 0 && drop(text.last()) {
        trim_end(text.drop_last(), drop)
    } else {
        text
    }
}

/// The text without the characters at its two ends that satisfy `drop`.
pub open spec fn trim_where(text: Seq<char>, drop: spec_fn(char) -> bool) -> Seq<char> {
    trim_end(trim_start(text, drop), drop)
}

/// The text without the white space at its two ends.
pub open spec fn trim(text: Seq<char>) -> Seq<char> {
    trim_where(text, |c: char| white_space(c))
}

/// What an executable test on characters decides.
pub open spec fn decides<F: Fn(char) -> bool>(test: F, meaning: spec_fn(char) -> bool) -> bool {
    &&& forall|c: char| #[trigger] test.requires((c,))
    &&& forall|c: char, r: bool| #[trigger] test.ensures((c,), r) ==> r == meaning(c)
}

/// The characters from index `from` up to index `to`.
pub fn part(chars: &Vec<char>, from: usize, to: usize) -> (piece: Vec<char>)
    requires
        from <= to <= chars@.len(),
    ensures
        piece@ == chars@.subrange(from as int, to as int),
{
    let mut piece: Vec<char> = Vec::new();
    for i in from..to
        invariant
            from <= to <= chars@.len(),
            piece@ == chars@.subrange(from as int, i as int),
    {
        piece.push(chars[i]);
        assert(chars@.subrange(from as int, i + 1) == chars@.subrange(from as int, i as int).push(
            chars@[i as int],
        ));
    }
    piece
}

pub fn trim_chars_start<F: Fn(char) -> bool>(
    chars: &Vec<char>,
    test: F,
    Ghost(drop): Ghost<spec_fn(char) -> bool>,
) -> (trimmed: Vec<char>)
    requires
        decides(test, drop),
    ensures
        trimmed@ == trim_start(chars@, drop),
{
    let mut start: usize = 0;
    assert(chars@.skip(0) == chars@);
    while start < chars.len() && test(chars[start])
        invariant
            decides(test, drop),
            start <= chars@.len(),
            trim_start(chars@, drop) == trim_start(chars@.skip(start as int), drop),
        decreases chars@.len() - start,
    {
        assert(chars@.skip(start as int).drop_first() == chars@.skip(start + 1));
        start += 1;
    }
    assert(chars@.skip(start as int) == chars@.subrange(start as int, chars@.len() as int));
    part(chars, start, chars.len())
}

pub fn trim_chars_end<F: Fn(char) -> bool>(
    chars: &Vec<char>,
    test: F,
    Ghost(drop): Ghost<spec_fn(char) -> bool>,
) -> (trimmed: Vec<char>)
    requires
        decides(test, drop),
    ensures
        trimmed@ == trim_end(chars@, drop),
{
    let mut end: usize = chars.len();
    assert(chars@.take(end as int) == chars@);
    while end > 0 && test(chars[end - 1])
        invariant
            decides(test, drop),
            end <= chars@.len(),
            trim_end(chars@, drop) == trim_end(chars@.take(end as int), drop),
        decreases end,
    {
        assert(chars@.take(end as int).drop_last() == chars@.take(end - 1));
        end -= 1;
    }
    assert(chars@.take(end as int) == chars@.subrange(0, end as int));
    part(chars, 0, end)
}

pub fn trim_chars_where<F: Fn(char) -> bool>(
    chars: &Vec<char>,
    test: F,
    Ghost(drop): Ghost<spec_fn(char) -> bool>,
) -> (trimmed: Vec<char>)
    requires
        decides(test, drop),
    ensures
        trimmed@ == trim_where(chars@, drop),
{
    let rest: Vec<char> = trim_chars_start(chars, &test, Ghost(drop));
    trim_chars_end(&rest, &test, Ghost(drop))
}

pub fn trim_chars(chars: &Vec<char>) -> (trimmed: Vec<char>)
    ensures
        trimmed@ == trim(chars@),
{
    trim_chars_where(chars, is_white_space, Ghost(|c: char| white_space(c)))
}

/// Whether `pattern` stands in `text` at index `i`.
pub open spec fn occurs_at(text: Seq<char>, pattern: Seq<char>, i: int) -> bool {
    &&& 0 <= i
    &&& i + pattern.len() <= text.len()
    &&& text.subrange(i, i + pattern.len()) == pattern
}

/// Whether `pattern` stands anywhere in `text`.
pub open spec fn contains(text: Seq<char>, pattern: Seq<char>) -> bool {
    exists|i: int| occurs_at(text, pattern, i)
}

pub fn stands_at(chars: &Vec<char>, pattern: &Vec<char>, i: usize) -> (r: bool)
    requires
        i <= chars@.len(),
    ensures
        r == occurs_at(chars@, pattern@, i as int),
{
    if pattern.len() > chars.len() - i {
        return false;
    }
    let length: usize = chars.len();
    let ghost there: Seq<char> = chars@.subrange(i as int, i + pattern@.len());
    for k in 0..pattern.len()
        invariant
            i + pattern@.len() <= length == chars@.len(),
            there == chars@.subrange(i as int, i + pattern@.len()),
            forall|j: int| 0 <= j < k ==> chars@[i + j] == pattern@[j],
    {
        if chars[i + k] != pattern[k] {
            assert(there[k as int] != pattern@[k as int]);
            return false;
        }
    }
    assert(there == pattern@);
    true
}

/// The first index at which `pattern` stands in the text.
pub fn find_chars(chars: &Vec<char>, pattern: &Vec<char>) -> (r: Option<usize>)
    ensures
        match r {
            Some(i) => occurs_at(chars@, pattern@, i as int) && forall|k: int|
                0 <= k < i ==> !occurs_at(chars@, pattern@, k),
            None => !contains(chars@, pattern@),
        },
{
    let mut i: usize = 0;
    while i <= chars.len()
        invariant
            i <= chars@.len() + 1,
            forall|k: int| 0 <= k < i ==> !occurs_at(chars@, pattern@, k),
        decreases chars@.len() + 1 - i,
    {
        if stands_at(chars, pattern, i) {
            return Some(i);
        }
        if i == chars.len() {
            return None;
        }
        i += 1;
    }
    None
}

pub fn has_pattern(chars: &Vec<char>, pattern: &str) -> (r: bool)
    ensures
        r == contains(chars@, pattern@),
{
    let pattern_chars: Vec<char> = chars_of(pattern);
    match find_chars(chars, &pattern_chars) {
        Some(_) => true,
        None => false,
    }
}

/// The text without the occurrences of `pattern`, taken from the left and without overlap.
pub open spec fn without(text: Seq<char>, pattern: Seq<char>) -> Seq<char>
    recommends
        pattern.len() > 0,
    decreases text.len(),
{
    if text.len() == 0 || pattern.len() == 0 {
        text
    } else if occurs_at(text, pattern, 0) {
        without(text.skip(pattern.len() as int), pattern)
    } else {
        seq![text[0]] + without(text.drop_first(), pattern)
    }
}

pub fn remove_pattern(chars: &Vec<char>, pattern: &str) -> (rest: Vec<char>)
    requires
        pattern@.len() > 0,
    ensures
        rest@ == without(chars@, pattern@),
{
    let pattern_chars: Vec<char> = chars_of(pattern);
    let mut rest: Vec<char> = Vec::new();
    let mut i: usize = 0;
    assert(chars@.skip(0) == chars@);
    while i < chars.len()
        invariant
            i <= chars@.len(),
            pattern_chars@ == pattern@,
            pattern@.len() > 0,
            without(chars@, pattern@) == rest@ + without(chars@.skip(i as int), pattern@),
        decreases chars@.len() - i,
    {
        let ghost tail: Seq<char> = chars@.skip(i as int);
        let found: bool = stands_at(chars, &pattern_chars, i);
        proof {
            if i + pattern@.len() <= chars@.len() {
                assert(tail.subrange(0, pattern@.len() as int) == chars@.subrange(
                    i as int,
                    i + pattern@.len(),
                ));
            }
            assert(found == occurs_at(tail, pattern@, 0));
        }
        if found {
            assert(tail.skip(pattern@.len() as int) == chars@.skip(i + pattern@.len()));
            i += pattern_chars.len();
        } else {
            assert(tail.drop_first() == chars@.skip(i + 1));
            rest.push(chars[i]);
            i += 1;
        }
    }
    assert(without(chars@.skip(chars@.len() as int), pattern@) == Seq::<char>::empty());
    rest
}

/// The pieces of a text between the characters that satisfy `cut`; two such characters in a row
/// have an empty piece between them.
pub open spec fn split_where(text: Seq<char>, cut: spec_fn(char) -> bool) -> Seq<Seq<char>>
    decreases text.len(),
{
    if text.len() == 0 {
        seq![Seq::empty()]
    } else {
        let before = split_where(text.drop_last(), cut);
        if cut(text.last()) {
            before.push(Seq::empty())
        } else {
            before.drop_last().push(before.last().push(text.last()))
        }
    }
}

/// The texts that a vector of character vectors holds.
pub open spec fn char_texts(pieces: Seq<Vec<char>>) -> Seq<Seq<char>> {
    pieces.map_values(|piece: Vec<char>| piece@)
}

pub fn split_chars<F: Fn(char) -> bool>(
    chars: &Vec<char>,
    test: F,
    Ghost(cut): Ghost<spec_fn(char) -> bool>,
) -> (pieces: Vec<Vec<char>>)
    requires
        decides(test, cut),
    ensures
        char_texts(pieces@) == split_where(chars@, cut),
{
    let mut pieces: Vec<Vec<char>> = Vec::new();
    let mut piece: Vec<char> = Vec::new();
    assert(split_where(chars@.take(0), cut) == seq![Seq::<char>::empty()]);
    assert(char_texts(pieces@).push(piece@) == seq![Seq::<char>::empty()]);
    for i in 0..chars.len()
        invariant
            decides(test, cut),
            char_texts(pieces@).push(piece@) == split_where(chars@.take(i as int), cut),
    {
        let c: char = chars[i];
        assert(chars@.take(i + 1).drop_last() == chars@.take(i as int));
        let ghost before: Seq<Seq<char>> = char_texts(pieces@).push(piece@);
        assert(before.drop_last() == char_texts(pieces@));
        if test(c) {
            let ghost done: Seq<Vec<char>> = pieces@;
            let ghost last: Seq<char> = piece@;
            pieces.push(piece);
            piece = Vec::new();
            assert(char_texts(pieces@) == char_texts(done).push(last));
        } else {
            piece.push(c);
        }
    }
    assert(chars@.take(chars@.len() as int) == chars@);
    let ghost done: Seq<Vec<char>> = pieces@;
    let ghost last: Seq<char> = piece@;
    pieces.push(piece);
    assert(char_texts(pieces@) == char_texts(done).push(last));
    pieces
}

/// The texts that a vector of strings holds.
pub open spec fn texts(strings: Seq<String>) -> Seq<Seq<char>> {
    strings.map_values(|s: String| s@)
}

/// The text that an option holds.
pub open spec fn text_in(option: Option<String>) -> Option<Seq<char>> {
    match option {
        Some(text) => Some(text@),
        None => None,
    }
}

/// The texts one after another, with `separator` between any two neighbours.
pub open spec fn join(pieces: Seq<Seq<char>>, separator: Seq<char>) -> Seq<char>
    decreases pieces.len(),
{
    if pieces.len() == 0 {
        Seq::empty()
    } else if pieces.len() == 1 {
        pieces[0]
    } else {
        join(pieces.drop_last(), separator) + separator + pieces.last()
    }
}

pub fn join_strings(pieces: &Vec<String>, separator: &str) -> (joined: String)
    ensures
        joined@ == join(texts(pieces@), separator@),
{
    let mut joined = String::new();
    for i in 0..pieces.len()
        invariant
            joined@ == join(texts(pieces@.take(i as int)), separator@),
    {
        let ghost before = texts(pieces@.take(i as int));
        let ghost now = texts(pieces@.take(i + 1));
        assert(now.drop_last() == before);
        assert(now.last() == pieces@[i as int]@);
        if i > 0 {
            joined.append(separator);
        }
        joined.append(pieces[i].as_str());
    }
    assert(pieces@.take(pieces@.len() as int) == pieces@);
    joined
}

/// The decimal digit with a given value.
pub open spec fn digit_char(digit: nat) -> char
    recommends
        digit < 10,
{
    (48 + digit) as char
}

/// The value of a decimal digit.
pub open spec fn digit_value(c: char) -> nat
    recommends
        ascii_digit(c),
{
    (c as int - 48) as nat
}

/// A number in decimal digits, without leading zeros.
pub open spec fn decimal(n: nat) -> Seq<char>
    decreases n,
{
    if n < 10 {
        seq![digit_char(n)]
    } else {
        decimal(n / 10).push(digit_char(n % 10))
    }
}

pub fn append_decimal(text: &mut String, n: u64)
    ensures
        final(text)@ == old(text)@ + decimal(n as nat),
    decreases n,
{
    if n >= 10 {
        append_decimal(text, n / 10);
    }
    let digit: u8 = (n % 10) as u8;
    let ghost before: Seq<char> = text@;
    text.push((48 + digit) as char);
    assert(text@ == old(text)@ + decimal(n as nat));
}

pub open spec fn all_digits(text: Seq<char>) -> bool {
    forall|i: int| 0 <= i < text.len() ==> ascii_digit(#[trigger] text[i])
}

/// The number that a sequence of decimal digits writes.
pub open spec fn digits_value(text: Seq<char>) -> nat
    decreases text.len(),
{
    if text.len() == 0 {
        0
    } else {
        digits_value(text.drop_last()) * 10 + digit_value(text.last())
    }
}

/// The digits of a whole number that may carry a plus sign.
pub open spec fn unsigned_digits(text: Seq<char>) -> Seq<char> {
    if text.len() > 0 && text[0] == '+' {
        text.drop_first()
    } else {
        text
    }
}

/// The number that a text of decimal digits, with or without a plus sign, writes; there is none
/// where the text holds anything else, holds no digit, or writes a number above 64 bits.
pub open spec fn unsigned_number(text: Seq<char>) -> Option<u64> {
    let digits = unsigned_digits(text);
    if digits.len() > 0 && all_digits(digits) && digits_value(digits) <= u64::MAX {
        Some(digits_value(digits) as u64)
    } else {
        None
    }
}

/// A number grows with each digit that is appended.
proof fn lemma_digits_value_grows(text: Seq<char>, i: int)
    requires
        0 <= i <= text.len(),
    ensures
        digits_value(text.take(i)) <= digits_value(text),
    decreases text.len() - i,
{
    if i < text.len() {
        lemma_digits_value_grows(text, i + 1);
        assert(text.take(i + 1).drop_last() == text.take(i));
    } else {
        assert(text.take(i) == text);
    }
}

pub fn parse_unsigned(chars: &Vec<char>) -> (r: Option<u64>)
    ensures
        r == unsigned_number(chars@),
{
    let start: usize = if chars.len() > 0 && chars[0] == '+' {
        1
    } else {
        0
    };
    let ghost digits: Seq<char> = unsigned_digits(chars@);
    assert(digits == chars@.skip(start as int));
    if start == chars.len() {
        return None;
    }
    let mut value: u64 = 0;
    for i in start..chars.len()
        invariant
            start <= chars@.len(),
            digits == chars@.skip(start as int),
            all_digits(digits.take(i - start)),
            value == digits_value(digits.take(i - start)),
            unsigned_digits(chars@) == digits,
    {
        let c: char = chars[i];
        assert(digits[i - start] == c);
        if !is_ascii_digit(c) {
            return None;
        }
        let digit: u64 = (c as u8 - 48) as u64;
        proof {
            assert(digits.take(i - start + 1).drop_last() == digits.take(i - start));
            lemma_digits_value_grows(digits, i - start + 1);
        }
        if value > (u64::MAX - digit) / 10 {
            return None;
        }
        value = value * 10 + digit;
    }
    assert(digits.take(digits.len() as int) == digits);
    Some(value)
}

/// Whether `a` comes before `b` in the order of their characters.
///
/// Characters are ordered by code point, and so are their UTF-8 encodings: this is the order of
/// `str`.
pub open spec fn precedes(a: Seq<char>, b: Seq<char>) -> bool
    decreases a.len(),
{
    if b.len() == 0 {
        false
    } else if a.len() == 0 {
        true
    } else if a[0] == b[0] {
        precedes(a.drop_first(), b.drop_first())
    } else {
        a[0] < b[0]
    }
}

pub fn comes_before(a: &str, b: &str) -> (r: bool)
    ensures
        r == precedes(a@, b@),
{
    let left: Vec<char> = chars_of(a);
    let right: Vec<char> = chars_of(b);
    let mut i: usize = 0;
    assert(left@.skip(0) == left@);
    assert(right@.skip(0) == right@);
    loop
        invariant
            left@ == a@,
            right@ == b@,
            i <= left@.len(),
            i <= right@.len(),
            precedes(a@, b@) == precedes(left@.skip(i as int), right@.skip(i as int)),
        decreases left@.len() - i,
    {
        if i == right.len() {
            return false;
        }
        if i == left.len() {
            return true;
        }
        if left[i] != right[i] {
            return left[i] < right[i];
        }
        assert(left@.skip(i as int).drop_first() == left@.skip(i + 1));
        assert(right@.skip(i as int).drop_first() == right@.skip(i + 1));
        i += 1;
    }
}

pub proof fn lemma_precedes_irreflexive(a: Seq<char>)
    ensures
        !precedes(a, a),
    decreases a.len(),
{
    if a.len() > 0 {
        lemma_precedes_irreflexive(a.drop_first());
    }
}

pub proof fn lemma_precedes_transitive(a: Seq<char>, b: Seq<char>, c: Seq<char>)
    requires
        precedes(a, b),
        precedes(b, c),
    ensures
        precedes(a, c),
    decreases a.len(),
{
    if a.len() > 0 && a[0] == b[0] && b[0] == c[0] {
        lemma_precedes_transitive(a.drop_first(), b.drop_first(), c.drop_first());
    }
}

pub proof fn lemma_precedes_total(a: Seq<char>, b: Seq<char>)
    ensures
        precedes(a, b) || precedes(b, a) || a == b,
    decreases a.len(),
{
    if a.len() > 0 && b.len() > 0 && a[0] == b[0] {
        lemma_precedes_total(a.drop_first(), b.drop_first());
        if a.drop_first() == b.drop_first() {
            assert(a == seq![a[0]] + a.drop_first());
            assert(b == seq![b[0]] + b.drop_first());
        }
    } else if a.len() == 0 && b.len() == 0 {
        assert(a == b);
    }
}

/// Whether each text comes before all that follow it. Then none occurs twice.
pub open spec fn ascending(list: Seq<Seq<char>>) -> bool {
    forall|i: int, j: int| 0 <= i < j < list.len() ==> precedes(#[trigger] list[i], #[trigger] list[j])
}

/// An ascending list with one more text in its place, or the list itself if it holds the text.
pub open spec fn with_text(list: Seq<Seq<char>>, text: Seq<char>) -> Seq<Seq<char>>
    decreases list.len(),
{
    if list.len() == 0 {
        seq![text]
    } else if precedes(list.last(), text) {
        list.push(text)
    } else if list.last() == text {
        list
    } else {
        with_text(list.drop_last(), text).push(list.last())
    }
}

/// An ascending list with the texts of another list in their places.
pub open spec fn with_texts(list: Seq<Seq<char>>, more: Seq<Seq<char>>) -> Seq<Seq<char>>
    decreases more.len(),
{
    if more.len() == 0 {
        list
    } else {
        with_text(with_texts(list, more.drop_last()), more.last())
    }
}

/// The texts of a list in ascending order, each once.
pub open spec fn ascending_texts(list: Seq<Seq<char>>) -> Seq<Seq<char>> {
    with_texts(Seq::empty(), list)
}

pub proof fn lemma_with_text(list: Seq<Seq<char>>, text: Seq<char>)
    requires
        ascending(list),
    ensures
        ascending(with_text(list, text)),
        forall|t: Seq<char>| #[trigger]
            with_text(list, text).contains(t) <==> list.contains(t) || t == text,
    decreases list.len(),
{
    let result = with_text(list, text);
    if list.len() == 0 {
        assert(result[0] == text);
        assert forall|t: Seq<char>| #[trigger] result.contains(t) implies t == text by {}
    } else if precedes(list.last(), text) {
        assert forall|i: int, j: int| 0 <= i < j < result.len() implies precedes(
            #[trigger] result[i],
            #[trigger] result[j],
        ) by {
            if j == list.len() && i < list.len() - 1 {
                lemma_precedes_transitive(list[i], list.last(), text);
            }
        }
        assert(result[list.len() as int] == text);
        assert forall|t: Seq<char>| list.contains(t) implies #[trigger] result.contains(t) by {
            let i = choose|i: int| 0 <= i < list.len() && list[i] == t;
            assert(result[i] == t);
        }
    } else if list.last() == text {
    } else {
        let front = list.drop_last();
        lemma_with_text(front, text);
        lemma_precedes_total(list.last(), text);
        let placed = with_text(front, text);
        assert forall|i: int, j: int| 0 <= i < j < result.len() implies precedes(
            #[trigger] result[i],
            #[trigger] result[j],
        ) by {
            if j == placed.len() {
                assert(placed.contains(placed[i]));
                if front.contains(placed[i]) {
                    let k = choose|k: int| 0 <= k < front.len() && front[k] == placed[i];
                    assert(list[k] == placed[i]);
                }
            }
        }
        assert forall|t: Seq<char>| #[trigger] result.contains(t) <==> list.contains(t) || t
            == text by {
            if result.contains(t) {
                let i = choose|i: int| 0 <= i < result.len() && result[i] == t;
                if i < placed.len() {
                    assert(placed.contains(t));
                    if front.contains(t) {
                        let k = choose|k: int| 0 <= k < front.len() && front[k] == t;
                        assert(list[k] == t);
                    }
                } else {
                    assert(list[list.len() - 1] == t);
                }
            }
            if list.contains(t) || t == text {
                if t == list.last() {
                    assert(result[placed.len() as int] == t);
                } else {
                    if list.contains(t) {
                        let k = choose|k: int| 0 <= k < list.len() && list[k] == t;
                        assert(front[k] == t);
                    }
                    assert(placed.contains(t));
                    let i = choose|i: int| 0 <= i < placed.len() && placed[i] == t;
                    assert(result[i] == t);
                }
            }
        }
    }
}

pub proof fn lemma_with_texts(list: Seq<Seq<char>>, more: Seq<Seq<char>>)
    requires
        ascending(list),
    ensures
        ascending(with_texts(list, more)),
        forall|t: Seq<char>| #[trigger]
            with_texts(list, more).contains(t) <==> list.contains(t) || more.contains(t),
    decreases more.len(),
{
    if more.len() > 0 {
        let fewer = more.drop_last();
        lemma_with_texts(list, fewer);
        lemma_with_text(with_texts(list, fewer), more.last());
        assert forall|t: Seq<char>| more.contains(t) <==> #[trigger] fewer.contains(t) || t
            == more.last() by {
            if more.contains(t) {
                let k = choose|k: int| 0 <= k < more.len() && more[k] == t;
                if k < fewer.len() {
                    assert(fewer[k] == t);
                }
            }
            if fewer.contains(t) {
                let k = choose|k: int| 0 <= k < fewer.len() && fewer[k] == t;
                assert(more[k] == t);
            }
        }
        assert forall|t: Seq<char>| #[trigger]
            with_texts(list, more).contains(t) <==> list.contains(t) || more.contains(t) by {
            assert(fewer.contains(t) || !fewer.contains(t));
            assert(with_texts(list, fewer).contains(t) <==> list.contains(t) || fewer.contains(t));
        }
    }
}

/// Law: putting a list in order yields an ascending list with the same members.
pub proof fn law_ascending_texts(list: Seq<Seq<char>>)
    ensures
        ascending(ascending_texts(list)),
        forall|t: Seq<char>| #[trigger] ascending_texts(list).contains(t) <==> list.contains(t),
{
    lemma_with_texts(Seq::empty(), list);
}

pub fn insert_text(list: &mut Vec<String>, text: &str)
    ensures
        texts(final(list)@) == with_text(texts(old(list)@), text@),
{
    let ghost before = texts(list@);
    let owned: String = text.to_string();
    let mut place: usize = list.len();
    assert(before.take(place as int) == before);
    assert(before.skip(place as int) == Seq::<Seq<char>>::empty());
    while place > 0 && !comes_before(list[place - 1].as_str(), text)
        invariant
            list@ == old(list)@,
            before == texts(list@),
            owned@ == text@,
            place <= list@.len(),
            with_text(before, text@) == with_text(before.take(place as int), text@) + before.skip(
                place as int,
            ),
        decreases place,
    {
        let ghost front = before.take(place as int);
        assert(front.drop_last() == before.take(place - 1));
        assert(front.last() == list@[place - 1]@);
        if list[place - 1] == owned {
            assert(front + before.skip(place as int) == before);
            return ;
        }
        proof {
            assert(with_text(front.drop_last(), text@).push(front.last()) + before.skip(
                place as int,
            ) == with_text(front.drop_last(), text@) + before.skip(place - 1));
        }
        place -= 1;
    }
    proof {
        let front = before.take(place as int);
        if place > 0 {
            assert(front.last() == list@[place - 1]@);
        }
        assert(with_text(front, text@) == front.push(text@));
        assert(texts(list@.insert(place as int, owned)) == front.push(text@) + before.skip(
            place as int,
        ));
    }
    list.insert(place, owned);
}

proof fn lemma_trim_start_off(before: Seq<char>, text: Seq<char>, drop: spec_fn(char) -> bool)
    requires
        forall|i: int| 0 <= i < before.len() ==> drop(#[trigger] before[i]),
        text.len() > 0 ==> !drop(text[0]),
    ensures
        trim_start(before + text, drop) == text,
    decreases before.len(),
{
    let whole = before + text;
    if before.len() == 0 {
        assert(whole == text);
    } else {
        assert(whole[0] == before[0]);
        assert(whole.drop_first() == before.drop_first() + text);
        assert forall|i: int| 0 <= i < before.drop_first().len() implies drop(
            #[trigger] before.drop_first()[i],
        ) by {
            assert(drop(before[i + 1]));
        }
        lemma_trim_start_off(before.drop_first(), text, drop);
    }
}

proof fn lemma_trim_end_off(text: Seq<char>, after: Seq<char>, drop: spec_fn(char) -> bool)
    requires
        forall|i: int| 0 <= i < after.len() ==> drop(#[trigger] after[i]),
        text.len() > 0 ==> !drop(text.last()),
    ensures
        trim_end(text + after, drop) == text,
    decreases after.len(),
{
    let whole = text + after;
    if after.len() == 0 {
        assert(whole == text);
    } else {
        assert(whole.last() == after[after.len() - 1]);
        assert(whole.drop_last() == text + after.drop_last());
        lemma_trim_end_off(text, after.drop_last(), drop);
    }
}

/// Law: trimming takes off all characters of a kind at the two ends of a text, and nothing else.
pub proof fn law_trim_takes_the_ends(
    before: Seq<char>,
    kept: Seq<char>,
    after: Seq<char>,
    drop: spec_fn(char) -> bool,
)
    requires
        forall|i: int| 0 <= i < before.len() ==> drop(#[trigger] before[i]),
        forall|i: int| 0 <= i < after.len() ==> drop(#[trigger] after[i]),
        kept.len() > 0 ==> !drop(kept[0]) && !drop(kept.last()),
    ensures
        trim_where(before + kept + after, drop) == kept,
{
    if kept.len() == 0 {
        let all = before + after;
        assert(before + kept + after == all);
        assert forall|i: int| 0 <= i < all.len() implies drop(#[trigger] all[i]) by {
            if i < before.len() {
                assert(all[i] == before[i]);
            } else {
                assert(all[i] == after[i - before.len()]);
            }
        }
        assert(all + kept == all);
        lemma_trim_start_off(all, kept, drop);
        assert(trim_end(kept, drop) == kept);
    } else {
        assert(before + kept + after == before + (kept + after));
        assert((kept + after)[0] == kept[0]);
        lemma_trim_start_off(before, kept + after, drop);
        lemma_trim_end_off(kept, after, drop);
    }
}

/// Law: the pieces of two lists, put together, are those of the first, the separator, and those of
/// the second. One piece stands for itself, and no piece for nothing.
pub proof fn law_join(first: Seq<Seq<char>>, second: Seq<Seq<char>>, separator: Seq<char>)
    ensures
        join(Seq::empty(), separator).len() == 0,
        first.len() == 1 ==> join(first, separator) == first[0],
        first.len() > 0 && second.len() > 0 ==> join(first + second, separator) == join(
            first,
            separator,
        ) + separator + join(second, separator),
    decreases second.len(),
{
    if first.len() > 0 && second.len() > 0 {
        let all = first + second;
        assert(all.last() == second.last());
        assert(all.drop_last() == first + second.drop_last());
        if second.len() == 1 {
            assert(all.drop_last() == first);
        } else {
            law_join(first, second.drop_last(), separator);
            let front = join(second.drop_last(), separator);
            assert(join(first, separator) + separator + front + separator + second.last() == join(
                first,
                separator,
            ) + separator + (front + separator + second.last()));
        }
    }
}

/// Law: taking out a pattern keeps the text in front of its first occurrence, and goes on behind
/// it. A text without the pattern stays as it is.
pub proof fn law_without(text: Seq<char>, pattern: Seq<char>, i: int)
    requires
        pattern.len() > 0,
    ensures
        !contains(text, pattern) ==> without(text, pattern) == text,
        occurs_at(text, pattern, i) && (forall|k: int|
            0 <= k < i ==> !occurs_at(text, pattern, k)) ==> without(text, pattern) == text.take(i)
            + without(text.skip(i + pattern.len()), pattern),
    decreases text.len(),
{
    if text.len() > 0 {
        let rest = text.drop_first();
        assert forall|k: int| occurs_at(rest, pattern, k) implies occurs_at(
            text,
            pattern,
            k + 1,
        ) by {
            assert(text.subrange(k + 1, k + 1 + pattern.len()) == rest.subrange(
                k,
                k + pattern.len(),
            ));
        }
        law_without(rest, pattern, i - 1);
        if !contains(text, pattern) {
            assert(!occurs_at(text, pattern, 0));
            assert(!contains(rest, pattern)) by {
                if contains(rest, pattern) {
                    let k = choose|k: int| occurs_at(rest, pattern, k);
                    assert(occurs_at(text, pattern, k + 1));
                }
            }
            assert(seq![text[0]] + rest == text);
        }
        if occurs_at(text, pattern, i) && forall|k: int| 0 <= k < i ==> !occurs_at(text, pattern, k) {
            if i == 0 {
                assert(text.take(0) + without(text.skip(pattern.len() as int), pattern) == without(
                    text.skip(pattern.len() as int),
                    pattern,
                ));
            } else {
                assert(rest.subrange(i - 1, i - 1 + pattern.len()) == text.subrange(
                    i,
                    i + pattern.len(),
                ));
                assert(occurs_at(rest, pattern, i - 1));
                assert forall|k: int| 0 <= k < i - 1 implies !occurs_at(rest, pattern, k) by {
                    assert(!occurs_at(text, pattern, k + 1));
                }
                assert(!occurs_at(text, pattern, 0));
                assert(rest.skip(i - 1 + pattern.len()) == text.skip(i + pattern.len()));
                assert(seq![text[0]] + rest.take(i - 1) == text.take(i));
                let tail = without(text.skip(i + pattern.len()), pattern);
                assert(seq![text[0]] + (rest.take(i - 1) + tail) == text.take(i) + tail);
            }
        }
    } else {
        assert(!occurs_at(text, pattern, i));
    }
}

/// Law: lower case changes the capital letters of ASCII to the letters that stand 32 places later,
/// and no other character.
pub proof fn law_lower_case(text: Seq<char>, i: int)
    requires
        0 <= i < text.len(),
    ensures
        lower_case(text).len() == text.len(),
        'A' <= text[i] <= 'Z' ==> lower_case(text)[i] as int == text[i] as int + 32,
        !('A' <= text[i] <= 'Z') ==> lower_case(text)[i] == text[i],
{
}

/// Law: one text comes before another if it is the start of the other, or if at the first place
/// where they differ its character has the smaller code.
pub proof fn law_order_of_texts(a: Seq<char>, b: Seq<char>)
    ensures
        precedes(a, b) <==> exists|k: int|
            {
                &&& 0 <= k <= a.len()
                &&& k < b.len()
                &&& #[trigger] a.take(k) == b.take(k)
                &&& k < a.len() ==> (a[k] as int) < (b[k] as int)
            },
    decreases a.len(),
{
    if a.len() > 0 && b.len() > 0 && a[0] == b[0] {
        let x = a.drop_first();
        let y = b.drop_first();
        law_order_of_texts(x, y);
        if precedes(x, y) {
            let k = choose|k: int|
                {
                    &&& 0 <= k <= x.len()
                    &&& k < y.len()
                    &&& #[trigger] x.take(k) == y.take(k)
                    &&& k < x.len() ==> (x[k] as int) < (y[k] as int)
                };
            assert(a.take(k + 1) == seq![a[0]] + x.take(k));
            assert(b.take(k + 1) == seq![b[0]] + y.take(k));
            assert(a.take(k + 1) == b.take(k + 1));
        }
        if exists|k: int|
            {
                &&& 0 <= k <= a.len()
                &&& k < b.len()
                &&& #[trigger] a.take(k) == b.take(k)
                &&& k < a.len() ==> (a[k] as int) < (b[k] as int)
            } {
            let k = choose|k: int|
                {
                    &&& 0 <= k <= a.len()
                    &&& k < b.len()
                    &&& #[trigger] a.take(k) == b.take(k)
                    &&& k < a.len() ==> (a[k] as int) < (b[k] as int)
                };
            assert(k > 0);
            assert(x.take(k - 1) == a.take(k).drop_first());
            assert(y.take(k - 1) == b.take(k).drop_first());
            assert(x.take(k - 1) == y.take(k - 1));
        }
    } else {
        assert(a.take(0) == b.take(0));
        assert forall|k: int| k > 0 && k <= a.len() && k < b.len() && #[trigger] a.take(k)
            == b.take(k) implies a[0] == b[0] by {
            assert(a.take(k)[0] == a[0]);
            assert(b.take(k)[0] == b[0]);
        }
    }
}

/// Law: a pattern is in a text if, and only if, the text is made of some text, the pattern, and some
/// further text.
pub proof fn law_pattern_in_text(text: Seq<char>, pattern: Seq<char>, before: Seq<char>)
    ensures
        forall|after: Seq<char>|
            text == #[trigger] (before + pattern + after) ==> contains(text, pattern) && occurs_at(
                text,
                pattern,
                before.len() as int,
            ),
        contains(text, pattern) ==> exists|i: int|
            {
                &&& 0 <= i <= text.len() - pattern.len()
                &&& text == #[trigger] text.take(i) + pattern + text.skip(i + pattern.len())
            },
{
    assert forall|after: Seq<char>| text == #[trigger] (before + pattern + after) implies contains(
        text,
        pattern,
    ) && occurs_at(text, pattern, before.len() as int) by {
        let i = before.len() as int;
        assert(text.subrange(i, i + pattern.len()) == pattern);
        assert(occurs_at(text, pattern, i));
    }
    if contains(text, pattern) {
        let i = choose|i: int| occurs_at(text, pattern, i);
        assert(text == text.take(i) + text.subrange(i, i + pattern.len()) + text.skip(
            i + pattern.len(),
        ));
    }
}

} // verus!
