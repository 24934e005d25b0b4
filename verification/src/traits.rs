//! The numeric interface that formula evaluation is generic over.

use vstd::prelude::*;

verus! {

/// The sequence-of-characters type in which `NumberLike` receives the
/// text of a numeric literal at the specification level. Code outside
/// this crate that implements the trait writes its specification items
/// as never-called stubs over this alias.
pub type LiteralText = Seq<char>;

/// Represents types that can be used in formula engines.
///
/// Each operation comes in two parts: a specification function that names
/// the mathematical result for the implementing type, and an executable
/// method that must return exactly that result. Formula evaluation is
/// specified and verified against the specification functions alone, so
/// every contract of this crate holds for any lawful implementation.
pub trait NumberLike: Copy {
    /// The value denoted by a numeric literal (digits with an optional
    /// fractional part), or `None` when the literal does not denote a
    /// value of this type.
    spec fn spec_from_literal(s: Seq<char>) -> Option<Self>;

    /// The negation of a value.
    spec fn spec_neg(self) -> Self;

    /// The sum of two values.
    spec fn spec_add(self, other: Self) -> Self;

    /// The difference of two values.
    spec fn spec_sub(self, other: Self) -> Self;

    /// The product of two values.
    spec fn spec_mul(self, other: Self) -> Self;

    /// The quotient of two values.
    spec fn spec_div(self, other: Self) -> Self;

    /// Whether `self` is strictly below `other` in the type's partial
    /// order; incomparable pairs are below in neither direction.
    spec fn spec_lt(self, other: Self) -> bool;

    /// Whether `self` is strictly above `other` in the type's partial
    /// order; incomparable pairs are above in neither direction.
    spec fn spec_gt(self, other: Self) -> bool;

    /// Parse a numeric literal.
    fn from_literal(s: &str) -> (r: Option<Self>)
        ensures
            r == Self::spec_from_literal(s@),
    ;

    /// Negate a value.
    fn neg(self) -> (r: Self)
        ensures
            r == self.spec_neg(),
    ;

    /// Add two values.
    fn add(self, other: Self) -> (r: Self)
        ensures
            r == self.spec_add(other),
    ;

    /// Subtract `other` from `self`.
    fn sub(self, other: Self) -> (r: Self)
        ensures
            r == self.spec_sub(other),
    ;

    /// Multiply two values.
    fn mul(self, other: Self) -> (r: Self)
        ensures
            r == self.spec_mul(other),
    ;

    /// Divide `self` by `other`.
    fn div(self, other: Self) -> (r: Self)
        ensures
            r == self.spec_div(other),
    ;

    /// Strict less-than in the type's partial order.
    fn lt(self, other: Self) -> (r: bool)
        ensures
            r == self.spec_lt(other),
    ;

    /// Strict greater-than in the type's partial order.
    fn gt(self, other: Self) -> (r: bool)
        ensures
            r == self.spec_gt(other),
    ;
}

} // verus!
