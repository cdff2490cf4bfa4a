//! What the matrix contracts say of the element type.
//!
//! Elements are added with `+`, multiplied with `*`, and sums start from
//! `T::default()`. In contracts the three are `add_spec`, `mul_spec` and any
//! value that `is_zero`. An operation that the type cannot carry out (an
//! integer sum that overflows) is one whose `add_req` or `mul_req` is false.
use core::ops::{Add, Mul};
use vstd::prelude::*;
use vstd::std_specs::ops::AddSpec;
use vstd::std_specs::ops::MulSpec;

verus! {

/// `z` is a value that `T::default()` may return.
pub open spec fn is_zero<T: Default>(z: T) -> bool {
    call_ensures(T::default, (), z)
}

/// The executable `+` and `*` of `T` return what `add_spec` and `mul_spec` say.
pub open spec fn computes<T: Add<Output = T> + Mul<Output = T>>() -> bool {
    T::obeys_add_spec() && T::obeys_mul_spec()
}

/// Sums may be regrouped: where `(x + y) + w` and `y + w` can be formed, so
/// can `x + (y + w)`, and it is the same value.
pub open spec fn addition_associates<T: Add<Output = T>>() -> bool {
    forall|x: T, y: T, w: T|
        #![trigger x.add_spec(y).add_spec(w)]
        x.add_req(y) && x.add_spec(y).add_req(w) && y.add_req(w) ==> x.add_req(y.add_spec(w))
            && x.add_spec(y).add_spec(w) == x.add_spec(y.add_spec(w))
}

/// Adding something to `z` gives that thing.
pub open spec fn is_neutral<T: Add<Output = T>>(z: T) -> bool {
    forall|x: T| #![trigger z.add_spec(x)] z.add_spec(x) == x
}

} // verus!
