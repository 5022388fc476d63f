//! The handle a log-sink initializer returns; the sink itself is started by
//! the embedding program.

use vstd::prelude::*;

verus! {

/// Keeps the sink's guard alive for the process lifetime.
pub struct Logger<T> {
    pub guard: Option<T>,
}

impl<T> Logger<T> {
    pub fn new(guard: Option<T>) -> (r: Logger<T>)
        ensures
            r.guard == guard,
    {
        Logger { guard }
    }
}

} // verus!
