//! Shared ownership.

use std::sync::Arc;
use vstd::prelude::*;

verus! {

/// Another handle to the value that `handle` holds, by `Arc::clone`.
///
/// Taken on trust: `Arc::clone` copies the pointer, so both handles own one and
/// the same value.
#[verifier::external_body]
pub(crate) fn share<T>(handle: &Arc<T>) -> (copy: Arc<T>)
    ensures
        copy == *handle,
{
    Arc::clone(handle)
}

} // verus!
