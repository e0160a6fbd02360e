//! Reference-counted storage, as the persistent containers use it.
//!
//! The containers never change a value once it is behind an `Rc`: they hand out more
//! handles to it, and they ask whether two handles lead to the same allocation. Both
//! operations belong to `std::rc::Rc` and are not verified here; their contracts below
//! state what the standard library documents of them.
use std::rc::Rc;
use vstd::prelude::*;

verus! {

/// Calls `Rc::clone`: one more handle to the allocation that `rc` points to.
///
/// The contract claims that the new handle denotes the value that `rc` denotes, which
/// holds because both point to one allocation. Nothing is copied.
#[verifier::external_body]
pub(crate) fn share<T>(rc: &Rc<T>) -> (shared: Rc<T>)
    ensures
        shared == *rc,
{
    Rc::clone(rc)
}

/// Calls `Rc::ptr_eq`: whether the two handles point to the same allocation.
///
/// The contract claims one direction only. An answer of `true` means one allocation,
/// and one allocation holds one value, so the two handles denote equal values. An
/// answer of `false` is left open: equal values may live in two allocations, and
/// nothing in a value tells where it lives.
#[verifier::external_body]
pub(crate) fn same_allocation<T>(a: &Rc<T>, b: &Rc<T>) -> (same: bool)
    ensures
        same ==> *a == *b,
{
    Rc::ptr_eq(a, b)
}

} // verus!
