//! The arithmetic that amounts of substance are computed in.
//!
//! Counts, moles and grams are numbers of a type that the caller chooses, with operations
//! that the caller supplies (in practice IEEE binary64). The library never looks inside such a
//! number: it decides only by the comparisons below, and its contracts say which operations
//! are applied to which numbers, in which order. What those computations mean where nothing is
//! rounded is stated over [`Exact`].

use vstd::prelude::*;

verus! {

/// The operations on numbers.
///
/// The specification functions name what the operations compute. An implementation may leave
/// them as they are: they then stand for whatever the operation returns.
pub trait Arithmetic {
    type Number: Copy;

    /// The number that stands for a whole number.
    fn from_integer(n: u64) -> Self::Number;

    /// `a + b`.
    fn plus(a: Self::Number, b: Self::Number) -> Self::Number;

    /// `a - b`.
    fn minus(a: Self::Number, b: Self::Number) -> Self::Number;

    /// `a * b`.
    fn times(a: Self::Number, b: Self::Number) -> Self::Number;

    /// `a / b`.
    fn over(a: Self::Number, b: Self::Number) -> Self::Number;

    /// The number with its sign turned.
    fn negated(a: Self::Number) -> Self::Number;

    /// The number without its sign.
    fn magnitude(a: Self::Number) -> Self::Number;

    /// `a < b`.
    fn is_below(a: Self::Number, b: Self::Number) -> bool;

    /// `a <= b`. Where numbers may be unordered, this is not the negation of `b < a`.
    fn is_at_most(a: Self::Number, b: Self::Number) -> bool;

    /// Whether `a` comes after `b` in an order in which any two numbers have a place.
    fn is_ranked_after(a: Self::Number, b: Self::Number) -> bool;

    /// Whether the number is neither infinite nor undefined.
    fn is_finite(a: Self::Number) -> bool;

    /// The nearest whole number.
    fn rounded(a: Self::Number) -> Self::Number;

    /// The number that a text denotes, if it denotes one.
    fn parse(text: &str) -> Option<Self::Number>;

    /// The text of a number with a given count of decimals.
    fn format_fixed(a: Self::Number, decimals: usize) -> String;

    /// The text of a number with as many digits as it takes.
    fn format_plain(a: Self::Number) -> String;

    open spec fn integer(n: u64) -> Self::Number {
        choose|r: Self::Number| call_ensures(Self::from_integer, (n,), r)
    }

    open spec fn sum(a: Self::Number, b: Self::Number) -> Self::Number {
        choose|r: Self::Number| call_ensures(Self::plus, (a, b), r)
    }

    open spec fn difference(a: Self::Number, b: Self::Number) -> Self::Number {
        choose|r: Self::Number| call_ensures(Self::minus, (a, b), r)
    }

    open spec fn product(a: Self::Number, b: Self::Number) -> Self::Number {
        choose|r: Self::Number| call_ensures(Self::times, (a, b), r)
    }

    open spec fn quotient(a: Self::Number, b: Self::Number) -> Self::Number {
        choose|r: Self::Number| call_ensures(Self::over, (a, b), r)
    }

    open spec fn opposite(a: Self::Number) -> Self::Number {
        choose|r: Self::Number| call_ensures(Self::negated, (a,), r)
    }

    open spec fn size(a: Self::Number) -> Self::Number {
        choose|r: Self::Number| call_ensures(Self::magnitude, (a,), r)
    }

    open spec fn below(a: Self::Number, b: Self::Number) -> bool {
        choose|r: bool| call_ensures(Self::is_below, (a, b), r)
    }

    open spec fn at_most(a: Self::Number, b: Self::Number) -> bool {
        choose|r: bool| call_ensures(Self::is_at_most, (a, b), r)
    }

    open spec fn ranks_after(a: Self::Number, b: Self::Number) -> bool {
        choose|r: bool| call_ensures(Self::is_ranked_after, (a, b), r)
    }

    open spec fn finite(a: Self::Number) -> bool {
        choose|r: bool| call_ensures(Self::is_finite, (a,), r)
    }

    open spec fn nearest_integer(a: Self::Number) -> Self::Number {
        choose|r: Self::Number| call_ensures(Self::rounded, (a,), r)
    }

    open spec fn numeral(text: Seq<char>) -> Option<Self::Number> {
        (choose|t: &str, r: Option<Self::Number>| #![auto] t@ == text && call_ensures(Self::parse, (t,), r)).1
    }

    open spec fn fixed_text(a: Self::Number, decimals: usize) -> Seq<char> {
        (choose|r: String| call_ensures(Self::format_fixed, (a, decimals), r))@
    }

    open spec fn plain_text(a: Self::Number) -> Seq<char> {
        (choose|r: String| call_ensures(Self::format_plain, (a,), r))@
    }

}

/// Each operation accepts all numbers, and computes what its specification function says.
#[verifier::opaque]
pub open spec fn lawful<A: Arithmetic>() -> bool {
    &&& forall|n: u64| #[trigger] call_requires(A::from_integer, (n,))
    &&& forall|n: u64, r: A::Number| #[trigger]
        call_ensures(A::from_integer, (n,), r) ==> r == A::integer(n)
    &&& forall|a: A::Number, b: A::Number| #[trigger] call_requires(A::plus, (a, b))
    &&& forall|a: A::Number, b: A::Number, r: A::Number| #[trigger]
        call_ensures(A::plus, (a, b), r) ==> r == A::sum(a, b)
    &&& forall|a: A::Number, b: A::Number| #[trigger] call_requires(A::minus, (a, b))
    &&& forall|a: A::Number, b: A::Number, r: A::Number| #[trigger]
        call_ensures(A::minus, (a, b), r) ==> r == A::difference(a, b)
    &&& forall|a: A::Number, b: A::Number| #[trigger] call_requires(A::times, (a, b))
    &&& forall|a: A::Number, b: A::Number, r: A::Number| #[trigger]
        call_ensures(A::times, (a, b), r) ==> r == A::product(a, b)
    &&& forall|a: A::Number, b: A::Number| #[trigger] call_requires(A::over, (a, b))
    &&& forall|a: A::Number, b: A::Number, r: A::Number| #[trigger]
        call_ensures(A::over, (a, b), r) ==> r == A::quotient(a, b)
    &&& forall|a: A::Number| #[trigger] call_requires(A::negated, (a,))
    &&& forall|a: A::Number, r: A::Number| #[trigger]
        call_ensures(A::negated, (a,), r) ==> r == A::opposite(a)
    &&& forall|a: A::Number| #[trigger] call_requires(A::magnitude, (a,))
    &&& forall|a: A::Number, r: A::Number| #[trigger]
        call_ensures(A::magnitude, (a,), r) ==> r == A::size(a)
    &&& forall|a: A::Number, b: A::Number| #[trigger] call_requires(A::is_below, (a, b))
    &&& forall|a: A::Number, b: A::Number, r: bool| #[trigger]
        call_ensures(A::is_below, (a, b), r) ==> r == A::below(a, b)
    &&& forall|a: A::Number, b: A::Number| #[trigger] call_requires(A::is_at_most, (a, b))
    &&& forall|a: A::Number, b: A::Number, r: bool| #[trigger]
        call_ensures(A::is_at_most, (a, b), r) ==> r == A::at_most(a, b)
    &&& forall|a: A::Number, b: A::Number| #[trigger] call_requires(A::is_ranked_after, (a, b))
    &&& forall|a: A::Number, b: A::Number, r: bool| #[trigger]
        call_ensures(A::is_ranked_after, (a, b), r) ==> r == A::ranks_after(a, b)
    &&& forall|a: A::Number| #[trigger] call_requires(A::is_finite, (a,))
    &&& forall|a: A::Number, r: bool| #[trigger]
        call_ensures(A::is_finite, (a,), r) ==> r == A::finite(a)
    &&& forall|a: A::Number| #[trigger] call_requires(A::rounded, (a,))
    &&& forall|a: A::Number, r: A::Number| #[trigger]
        call_ensures(A::rounded, (a,), r) ==> r == A::nearest_integer(a)
    &&& forall|text: &str| #[trigger] call_requires(A::parse, (text,))
    &&& forall|text: &str, r: Option<A::Number>| #[trigger]
        call_ensures(A::parse, (text,), r) ==> r == A::numeral(text@)
    &&& forall|a: A::Number, decimals: usize| #[trigger] call_requires(A::format_fixed, (a, decimals))
    &&& forall|a: A::Number, decimals: usize, r: String| #[trigger]
        call_ensures(A::format_fixed, (a, decimals), r) ==> r@ == A::fixed_text(a, decimals)
    &&& forall|a: A::Number| #[trigger] call_requires(A::format_plain, (a,))
    &&& forall|a: A::Number, r: String| #[trigger]
        call_ensures(A::format_plain, (a,), r) ==> r@ == A::plain_text(a)
}

/// What operations on numbers compute, be they carried out by a machine or only thought of.
pub trait Numerals {
    type Number;

    /// The number that stands for a whole number.
    spec fn integer(n: u64) -> Self::Number;

    /// `a + b`.
    spec fn sum(a: Self::Number, b: Self::Number) -> Self::Number;

    /// `a - b`.
    spec fn difference(a: Self::Number, b: Self::Number) -> Self::Number;

    /// `a * b`.
    spec fn product(a: Self::Number, b: Self::Number) -> Self::Number;

    /// `a / b`.
    spec fn quotient(a: Self::Number, b: Self::Number) -> Self::Number;

    /// The number with its sign turned.
    spec fn opposite(a: Self::Number) -> Self::Number;

    /// The number without its sign.
    spec fn size(a: Self::Number) -> Self::Number;

    /// `a < b`.
    spec fn below(a: Self::Number, b: Self::Number) -> bool;

    /// `a <= b`. Where numbers may be unordered, this is not the negation of `b < a`.
    spec fn at_most(a: Self::Number, b: Self::Number) -> bool;

    /// Whether `a` comes after `b` in an order in which any two numbers have a place.
    spec fn ranks_after(a: Self::Number, b: Self::Number) -> bool;

}

/// The numbers and operations of an [`Arithmetic`].
pub struct Machine<A> {
    pub marker: core::marker::PhantomData<A>,
}

impl<A: Arithmetic> Numerals for Machine<A> {
    type Number = A::Number;

    open spec fn integer(n: u64) -> A::Number {
        A::integer(n)
    }

    open spec fn sum(a: A::Number, b: A::Number) -> A::Number {
        A::sum(a, b)
    }

    open spec fn difference(a: A::Number, b: A::Number) -> A::Number {
        A::difference(a, b)
    }

    open spec fn product(a: A::Number, b: A::Number) -> A::Number {
        A::product(a, b)
    }

    open spec fn quotient(a: A::Number, b: A::Number) -> A::Number {
        A::quotient(a, b)
    }

    open spec fn opposite(a: A::Number) -> A::Number {
        A::opposite(a)
    }

    open spec fn size(a: A::Number) -> A::Number {
        A::size(a)
    }

    open spec fn below(a: A::Number, b: A::Number) -> bool {
        A::below(a, b)
    }

    open spec fn at_most(a: A::Number, b: A::Number) -> bool {
        A::at_most(a, b)
    }

    open spec fn ranks_after(a: A::Number, b: A::Number) -> bool {
        A::ranks_after(a, b)
    }

}

/// Arithmetic on the real numbers, without rounding.
pub struct Exact;

impl Numerals for Exact {
    type Number = real;

    open spec fn integer(n: u64) -> real {
        n as int as real
    }

    open spec fn sum(a: real, b: real) -> real {
        a + b
    }

    open spec fn difference(a: real, b: real) -> real {
        a - b
    }

    open spec fn product(a: real, b: real) -> real {
        a * b
    }

    open spec fn quotient(a: real, b: real) -> real {
        a / b
    }

    open spec fn opposite(a: real) -> real {
        -a
    }

    open spec fn size(a: real) -> real {
        if a < 0real {
            -a
        } else {
            a
        }
    }

    open spec fn below(a: real, b: real) -> bool {
        a < b
    }

    open spec fn at_most(a: real, b: real) -> bool {
        a <= b
    }

    open spec fn ranks_after(a: real, b: real) -> bool {
        a > b
    }

}

pub fn from_integer<A: Arithmetic>(n: u64) -> (r: A::Number)
    requires
        lawful::<A>(),
    ensures
        r == A::integer(n),
{
    proof {
        reveal(lawful);
    }
    A::from_integer(n)
}

pub fn plus<A: Arithmetic>(a: A::Number, b: A::Number) -> (r: A::Number)
    requires
        lawful::<A>(),
    ensures
        r == A::sum(a, b),
{
    proof {
        reveal(lawful);
    }
    A::plus(a, b)
}

pub fn minus<A: Arithmetic>(a: A::Number, b: A::Number) -> (r: A::Number)
    requires
        lawful::<A>(),
    ensures
        r == A::difference(a, b),
{
    proof {
        reveal(lawful);
    }
    A::minus(a, b)
}

pub fn times<A: Arithmetic>(a: A::Number, b: A::Number) -> (r: A::Number)
    requires
        lawful::<A>(),
    ensures
        r == A::product(a, b),
{
    proof {
        reveal(lawful);
    }
    A::times(a, b)
}

pub fn over<A: Arithmetic>(a: A::Number, b: A::Number) -> (r: A::Number)
    requires
        lawful::<A>(),
    ensures
        r == A::quotient(a, b),
{
    proof {
        reveal(lawful);
    }
    A::over(a, b)
}

pub fn negated<A: Arithmetic>(a: A::Number) -> (r: A::Number)
    requires
        lawful::<A>(),
    ensures
        r == A::opposite(a),
{
    proof {
        reveal(lawful);
    }
    A::negated(a)
}

pub fn magnitude<A: Arithmetic>(a: A::Number) -> (r: A::Number)
    requires
        lawful::<A>(),
    ensures
        r == A::size(a),
{
    proof {
        reveal(lawful);
    }
    A::magnitude(a)
}

pub fn is_below<A: Arithmetic>(a: A::Number, b: A::Number) -> (r: bool)
    requires
        lawful::<A>(),
    ensures
        r == A::below(a, b),
{
    proof {
        reveal(lawful);
    }
    A::is_below(a, b)
}

pub fn is_at_most<A: Arithmetic>(a: A::Number, b: A::Number) -> (r: bool)
    requires
        lawful::<A>(),
    ensures
        r == A::at_most(a, b),
{
    proof {
        reveal(lawful);
    }
    A::is_at_most(a, b)
}

pub fn is_ranked_after<A: Arithmetic>(a: A::Number, b: A::Number) -> (r: bool)
    requires
        lawful::<A>(),
    ensures
        r == A::ranks_after(a, b),
{
    proof {
        reveal(lawful);
    }
    A::is_ranked_after(a, b)
}

pub fn is_finite<A: Arithmetic>(a: A::Number) -> (r: bool)
    requires
        lawful::<A>(),
    ensures
        r == A::finite(a),
{
    proof {
        reveal(lawful);
    }
    A::is_finite(a)
}

pub fn rounded<A: Arithmetic>(a: A::Number) -> (r: A::Number)
    requires
        lawful::<A>(),
    ensures
        r == A::nearest_integer(a),
{
    proof {
        reveal(lawful);
    }
    A::rounded(a)
}

pub fn parse<A: Arithmetic>(text: &str) -> (r: Option<A::Number>)
    requires
        lawful::<A>(),
    ensures
        r == A::numeral(text@),
{
    proof {
        reveal(lawful);
    }
    A::parse(text)
}

pub fn format_fixed<A: Arithmetic>(a: A::Number, decimals: usize) -> (r: String)
    requires
        lawful::<A>(),
    ensures
        r@ == A::fixed_text(a, decimals),
{
    proof {
        reveal(lawful);
    }
    A::format_fixed(a, decimals)
}

pub fn format_plain<A: Arithmetic>(a: A::Number) -> (r: String)
    requires
        lawful::<A>(),
    ensures
        r@ == A::plain_text(a),
{
    proof {
        reveal(lawful);
    }
    A::format_plain(a)
}

} // verus!
