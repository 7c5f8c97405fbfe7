//! The expression algebra: the abstract construction contract that every
//! realization implements.
//!
//! A realization chooses a mathematical view of what it builds (`DeepView`)
//! and pins each operation down by a spec function on that view; the
//! executable operations are then contracted to produce exactly the viewed
//! value the spec functions describe.

use vstd::prelude::*;

verus! {

/// The construction operations any expression target must support.
///
/// `Self::V` (through `DeepView`) is the realization's mathematical view:
/// a sequence of instructions for the bytecode builder, a sequence of
/// characters for the source printer.
pub trait ST: DeepView + Sized {
    /// What `lit` builds.
    spec fn lit_spec(num: isize) -> Self::V;

    /// What `neg` builds from the view of its operand.
    spec fn neg_spec(num: Self::V) -> Self::V;

    /// What `add` builds from the views of its operands.
    spec fn add_spec(left: Self::V, right: Self::V) -> Self::V;

    /// What `get` builds from a variable name.
    spec fn get_spec(var: Seq<char>) -> Self::V;

    /// What `set` builds from a variable name and the view of the written
    /// expression.
    spec fn set_spec(var: Seq<char>, val: Self::V) -> Self::V;

    /// What `block` builds from the views of its (at least one)
    /// sub-expressions.
    spec fn block_spec(exprs: Seq<Self::V>) -> Self::V;

    /// A literal.
    fn lit(num: isize) -> (r: Self)
        ensures
            r.deep_view() == Self::lit_spec(num),
    ;

    /// Unary negation.
    fn neg(num: Self) -> (r: Self)
        ensures
            r.deep_view() == Self::neg_spec(num.deep_view()),
    ;

    /// Addition.  The left operand comes first in every realization.
    fn add(left: Self, right: Self) -> (r: Self)
        ensures
            r.deep_view() == Self::add_spec(left.deep_view(), right.deep_view()),
    ;

    /// A variable read.
    fn get(var: String) -> (r: Self)
        ensures
            r.deep_view() == Self::get_spec(var@),
    ;

    /// A variable write.  At the algebra level the result stands for the
    /// written expression; each realization decides how to surface it.
    fn set(var: String, val: Self) -> (r: Self)
        ensures
            r.deep_view() == Self::set_spec(var@, val.deep_view()),
    ;

    /// Sequence at least one expression; all but the last are evaluated for
    /// effect only, and the block stands for the last.  An empty block is a
    /// precondition violation, not a runtime case.
    fn block(exprs: Vec<Self>) -> (r: Self)
        requires
            exprs@.len() > 0,
        ensures
            r.deep_view() == Self::block_spec(exprs.deep_view()),
    ;
}

/// Subtraction over a realization.
pub trait Sub: DeepView + Sized {
    /// What `sub` builds from the views of its operands.
    spec fn sub_spec(left: Self::V, right: Self::V) -> Self::V;

    /// Subtraction.
    fn sub(left: Self, right: Self) -> (r: Self)
        ensures
            r.deep_view() == Self::sub_spec(left.deep_view(), right.deep_view()),
    ;
}

/// Marker: realizations that opt in receive `Sub` for free, derived once
/// from the algebra as `add(left, neg(right))`.
pub trait Auto {}

/// The full construction surface: the algebra together with subtraction.
pub trait ParseST: ST + Sub {}

/// The single derivation point for subtraction: for every realization that
/// opts in through `Auto`, `sub(left, right)` is `add(left, neg(right))` —
/// by definition, not per realization.
impl<T: ST + Auto> Sub for T {
    open spec fn sub_spec(left: T::V, right: T::V) -> T::V {
        T::add_spec(left, T::neg_spec(right))
    }

    fn sub(left: Self, right: Self) -> (r: Self) {
        ST::add(left, ST::neg(right))
    }
}

/// For every realization with the derived subtraction, what `sub` builds is
/// exactly what `add` of the left operand and the negated right operand
/// builds; running either therefore yields the same result.
pub proof fn lemma_sub_is_add_neg<T: ST + Auto>(left: T::V, right: T::V)
    ensures
        <T as Sub>::sub_spec(left, right) == T::add_spec(left, T::neg_spec(right)),
{
}

} // verus!
