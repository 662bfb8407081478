//! The value type that integrands produce.
use crate::hierarchic::{Accumulate, ResultType};
use vstd::prelude::*;

verus! {

/// Wraps a value of an integrand (a scalar, a matrix) so that the engine can
/// accumulate it.
#[derive(Debug)]
pub struct ResultTypeWrapper<T>(pub T);

impl<T> ResultTypeWrapper<T> {
    pub fn new(t: T) -> (r: Self)
        ensures
            r.0 == t,
    {
        ResultTypeWrapper(t)
    }

    pub fn get(self) -> (r: T)
        ensures
            r == self.0,
    {
        self.0
    }

    pub fn get_borrow(&self) -> (r: &T)
        ensures
            *r == self.0,
    {
        &self.0
    }
}

impl<T: Accumulate> Accumulate for ResultTypeWrapper<T> {
    open spec fn spec_add(a: Self, b: Self) -> Self {
        ResultTypeWrapper(T::spec_add(a.0, b.0))
    }

    open spec fn spec_zero() -> Self {
        ResultTypeWrapper(T::spec_zero())
    }

    fn add_assign(&mut self, other: &Self) {
        self.0.add_assign(&other.0);
    }

    fn additive_neutral_element() -> Self {
        ResultTypeWrapper(T::additive_neutral_element())
    }
}

impl<P, T: ResultType<P>> ResultType<P> for ResultTypeWrapper<T> {
    open spec fn spec_exceeds(a: Self, b: Self, precision: P) -> bool {
        T::spec_exceeds(a.0, b.0, precision)
    }

    fn exceeds(&self, other: &Self, precision: &P) -> bool {
        self.0.exceeds(&other.0, precision)
    }
}

} // verus!
