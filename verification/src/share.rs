use std::rc::Rc;
use vstd::prelude::*;

verus! {

/// `Rc::clone`: hands out one more owner of the same allocation. What the
/// pointer refers to is neither copied nor changed, so the new handle refers
/// to a value equal to the one behind `handle`.
#[verifier::external_body]
pub(crate) fn share<T>(handle: &Rc<T>) -> (shared: Rc<T>)
    ensures
        shared == *handle,
{
    Rc::clone(handle)
}

} // verus!
