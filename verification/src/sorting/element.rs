//! What the sorting contracts say of the element type.
//!
//! Elements are compared with `<` and duplicated with `clone`, nothing else.
//! The meaning of `<` in contracts is `lt`. The laws that a sensible order and
//! a sensible `clone` obey are stated as predicates on the element type, so
//! that each contract can name exactly the laws it rests on.
use vstd::prelude::*;
use vstd::std_specs::cmp::PartialOrdIs;
use vstd::std_specs::cmp::PartialOrdSpec;

verus! {

/// `a` is strictly below `b`.
pub open spec fn lt<T: PartialOrd>(a: T, b: T) -> bool {
    a.is_lt(&b)
}

/// The executable `<` of `T` returns what `lt` says.
pub open spec fn comparable<T: PartialOrd>() -> bool {
    T::obeys_partial_cmp_spec()
}

/// A clone of a value is that value.
pub open spec fn clones_faithfully<T: Clone>() -> bool {
    forall|a: T, b: T| #[trigger] cloned::<T>(a, b) ==> a == b
}

/// Neither of `a` and `b` is below the other.
pub open spec fn tied<T: PartialOrd>(a: T, b: T) -> bool {
    !lt(a, b) && !lt(b, a)
}

/// The test for a tie with `x`.
pub open spec fn ties_with<T: PartialOrd>(x: T) -> spec_fn(T) -> bool {
    |e: T| tied(e, x)
}

/// `lt` never holds in both directions.
pub open spec fn asymmetric<T: PartialOrd>() -> bool {
    forall|a: T, b: T| #[trigger] lt(a, b) ==> !lt(b, a)
}

/// "Not above" is transitive: if `a` is not above `b` and `b` is not above
/// `c`, then `a` is not above `c`.
pub open spec fn transitive<T: PartialOrd>() -> bool {
    forall|a: T, b: T, c: T| #![trigger lt(b, a), lt(c, b)] !lt(b, a) && !lt(c, b) ==> !lt(c, a)
}

/// Two elements of which neither is below the other are the same value.
pub open spec fn ties_are_identical<T: PartialOrd>() -> bool {
    forall|a: T, b: T| #![trigger lt(a, b), lt(b, a)] !lt(a, b) && !lt(b, a) ==> a == b
}

/// `T` is ranked: `<` is computed faithfully and orders the values into
/// levels, where several values may share a level.
pub open spec fn weakly_ordered<T: PartialOrd>() -> bool {
    &&& comparable::<T>()
    &&& asymmetric::<T>()
    &&& transitive::<T>()
}

/// `T` is ranked and no two different values share a level.
pub open spec fn totally_ordered<T: PartialOrd>() -> bool {
    &&& weakly_ordered::<T>()
    &&& ties_are_identical::<T>()
}

/// No element of `s` is below an earlier one.
pub open spec fn non_decreasing<T: PartialOrd>(s: Seq<T>) -> bool {
    forall|i: int, j: int| 0 <= i < j < s.len() ==> !lt(s[j], s[i])
}

/// An element type that keeps the comparison laws of `vstd::laws_cmp` is
/// weakly ordered.
pub proof fn lemma_lawful_is_weakly_ordered<T: Ord>()
    requires
        vstd::laws_cmp::obeys_cmp::<T>(),
    ensures
        weakly_ordered::<T>(),
{
    reveal(vstd::laws_cmp::obeys_cmp_partial_ord);
    reveal(vstd::laws_cmp::obeys_cmp_ord);
    reveal(vstd::laws_cmp::obeys_partial_cmp_spec_properties);
    reveal(vstd::laws_eq::obeys_eq_spec_properties);
}

/// An element type that keeps the comparison laws of `vstd::laws_cmp`, and
/// whose `==` holds of identical values only, is totally ordered.
pub proof fn lemma_lawful_is_totally_ordered<T: Ord>()
    requires
        vstd::laws_cmp::obeys_cmp::<T>(),
        vstd::laws_eq::obeys_concrete_eq::<T>(),
    ensures
        totally_ordered::<T>(),
{
    lemma_lawful_is_weakly_ordered::<T>();
    reveal(vstd::laws_cmp::obeys_cmp_partial_ord);
    reveal(vstd::laws_cmp::obeys_cmp_ord);
    reveal(vstd::laws_cmp::obeys_partial_cmp_spec_properties);
    reveal(vstd::laws_eq::obeys_concrete_eq);
}

} // verus!
