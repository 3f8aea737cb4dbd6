//! The `Boolean` capability: a value that reads as a primitive true or false.
use vstd::prelude::*;

verus! {

/// A value with a truth value, for data whose features are binary.
pub trait Boolean: Sized + Copy {
    /// The truth value of `self`.
    spec fn spec_as_bool(&self) -> bool;

    /// Converts the value to a `bool`.
    fn as_bool(&self) -> (r: bool)
        ensures
            r == self.spec_as_bool(),
    ;
}

impl Boolean for bool {
    open spec fn spec_as_bool(&self) -> bool {
        *self
    }

    fn as_bool(&self) -> (r: bool) {
        *self
    }
}

} // verus!
