//! The coarsest arithmetic: none or some. It shows that what is asked of an arithmetic can be met.

use vstd::prelude::*;

use crate::arithmetic::{lawful, Arithmetic};
use crate::bracket_laws::{lemma_literal_characters, zero_is_neutral};
use crate::material_laws::{reads_count, reads_short_counts, short_count};
use crate::text::{ascii_digit, chars_of, is_ascii_digit};

verus! {

/// The numbers zero (`false`) and more than zero (`true`).
pub struct Presence;

/// Whether a text consists of digits and points, of which there is at least one.
pub open spec fn digits_and_points(text: Seq<char>) -> bool {
    &&& text.len() > 0
    &&& forall|k: int| 0 <= k < text.len() ==> ascii_digit(#[trigger] text[k]) || text[k] == '.'
}

/// Whether a digit other than zero stands in a text.
pub open spec fn has_nonzero_digit(text: Seq<char>) -> bool {
    exists|k: int| 0 <= k < text.len() && '1' <= #[trigger] text[k] <= '9'
}

impl Arithmetic for Presence {
    type Number = bool;

    open spec fn integer(n: u64) -> bool {
        n > 0
    }

    open spec fn sum(a: bool, b: bool) -> bool {
        a || b
    }

    open spec fn difference(a: bool, b: bool) -> bool {
        a && !b
    }

    open spec fn product(a: bool, b: bool) -> bool {
        a && b
    }

    open spec fn quotient(a: bool, b: bool) -> bool {
        a
    }

    open spec fn opposite(a: bool) -> bool {
        a
    }

    open spec fn size(a: bool) -> bool {
        a
    }

    open spec fn below(a: bool, b: bool) -> bool {
        !a && b
    }

    open spec fn at_most(a: bool, b: bool) -> bool {
        a ==> b
    }

    open spec fn ranks_after(a: bool, b: bool) -> bool {
        a && !b
    }

    open spec fn finite(a: bool) -> bool {
        true
    }

    open spec fn nearest_integer(a: bool) -> bool {
        a
    }

    open spec fn numeral(text: Seq<char>) -> Option<bool> {
        if digits_and_points(text) {
            Some(has_nonzero_digit(text))
        } else {
            None
        }
    }

    open spec fn fixed_text(a: bool, decimals: usize) -> Seq<char> {
        Self::plain_text(a)
    }

    open spec fn plain_text(a: bool) -> Seq<char> {
        if a {
            "1"@
        } else {
            "0"@
        }
    }

    fn from_integer(n: u64) -> (r: bool)
        ensures
            r == (n > 0),
    {
        n > 0
    }

    fn plus(a: bool, b: bool) -> (r: bool)
        ensures
            r == (a || b),
    {
        a || b
    }

    fn minus(a: bool, b: bool) -> (r: bool)
        ensures
            r == (a && !b),
    {
        a && !b
    }

    fn times(a: bool, b: bool) -> (r: bool)
        ensures
            r == (a && b),
    {
        a && b
    }

    fn over(a: bool, b: bool) -> (r: bool)
        ensures
            r == a,
    {
        a
    }

    fn negated(a: bool) -> (r: bool)
        ensures
            r == a,
    {
        a
    }

    fn magnitude(a: bool) -> (r: bool)
        ensures
            r == a,
    {
        a
    }

    fn is_below(a: bool, b: bool) -> (r: bool)
        ensures
            r == (!a && b),
    {
        !a && b
    }

    fn is_at_most(a: bool, b: bool) -> (r: bool)
        ensures
            r == (a ==> b),
    {
        !a || b
    }

    fn is_ranked_after(a: bool, b: bool) -> (r: bool)
        ensures
            r == (a && !b),
    {
        a && !b
    }

    fn is_finite(a: bool) -> (r: bool)
        ensures
            r,
    {
        true
    }

    fn rounded(a: bool) -> (r: bool)
        ensures
            r == a,
    {
        a
    }

    fn parse(text: &str) -> (r: Option<bool>)
        ensures
            r == Self::numeral(text@),
    {
        let chars: Vec<char> = chars_of(text);
        if chars.len() == 0 {
            return None;
        }
        let mut some: bool = false;
        for i in 0..chars.len()
            invariant
                chars@ == text@,
                chars@.len() > 0,
                forall|k: int|
                    0 <= k < i ==> ascii_digit(#[trigger] chars@[k]) || chars@[k] == '.',
                some == exists|k: int| 0 <= k < i && '1' <= #[trigger] chars@[k] <= '9',
        {
            let c: char = chars[i];
            if !is_ascii_digit(c) && c != '.' {
                return None;
            }
            if '1' <= c && c <= '9' {
                assert('1' <= chars@[i as int] <= '9');
                some = true;
            }
        }
        Some(some)
    }

    fn format_fixed(a: bool, decimals: usize) -> (r: String)
        ensures
            r@ == Self::plain_text(a),
    {
        Self::format_plain(a)
    }

    fn format_plain(a: bool) -> (r: String)
        ensures
            r@ == Self::plain_text(a),
    {
        if a {
            "1".to_string()
        } else {
            "0".to_string()
        }
    }
}

/// Law: this arithmetic is lawful, reads short decimal numbers as counts, and has a neutral zero.
/// So what the library and its laws ask of an arithmetic can be met.
pub proof fn law_demands_can_be_met()
    ensures
        lawful::<Presence>(),
        reads_short_counts::<Presence>(),
        zero_is_neutral::<Presence>(),
{
    reveal(lawful);
    assert forall|text: Seq<char>| #[trigger] short_count(text) implies reads_count::<Presence>(
        text,
    ) by {
        lemma_literal_characters(text);
        assert(digits_and_points(text));
        assert(has_nonzero_digit(text));
    }
}

} // verus!
