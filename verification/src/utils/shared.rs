use std::sync::Arc;
use vstd::prelude::*;

verus! {

/// `Arc::clone`: another handle on the same value. The result equals the argument.
#[verifier::external_body]
pub(crate) fn share<T>(value: &Arc<T>) -> (res: Arc<T>)
    ensures
        res == *value,
{
    Arc::clone(value)
}

} // verus!
