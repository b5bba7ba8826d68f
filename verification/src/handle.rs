//! Typed handles into externally owned asset collections.
use vstd::prelude::*;

verus! {

use core::marker::PhantomData;
use std::sync::Arc;

/// A shared handle to an asset of type `T`: the identifier is reference
/// counted, so an asset store can tell when no handle to an asset is left.
#[derive(Debug)]
pub struct Handle<T> {
    pub id: Arc<u64>,
    pub marker: PhantomData<T>,
}

impl<T> Handle<T> {
    /// Wraps a shared asset identifier.
    pub fn new(id: Arc<u64>) -> (r: Handle<T>)
        ensures
            r.id == id,
    {
        Handle { id, marker: PhantomData }
    }
}

} // verus!
