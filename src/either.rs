use vstd::prelude::*;

verus! {

/// Holds either a value of type `A` (on the left) or a value of type `B` (on the right).
///
/// Useful for functions that return one of two different types. Which side is
/// populated is fixed when the value is made; callers inspect it with `match`.
pub enum Either<A, B> {
    Left(A),
    Right(B),
}

/// Every `Either` is on exactly one side: never both, never neither.
pub proof fn lemma_exactly_one_side<A, B>(e: Either<A, B>)
    ensures
        (e is Left) != (e is Right),
{
}

/// A value made with `Left(x)` is on the left side, not the right one, and holds `x`.
pub proof fn lemma_left_holds<A, B>(x: A)
    ensures
        Either::<A, B>::Left(x) is Left,
        !(Either::<A, B>::Left(x) is Right),
        Either::<A, B>::Left(x)->Left_0 == x,
{
}

/// A value made with `Right(y)` is on the right side, not the left one, and holds `y`.
pub proof fn lemma_right_holds<A, B>(y: B)
    ensures
        Either::<A, B>::Right(y) is Right,
        !(Either::<A, B>::Right(y) is Left),
        Either::<A, B>::Right(y)->Right_0 == y,
{
}

} // verus!
