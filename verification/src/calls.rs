use vstd::prelude::*;
use crate::error::Error;

verus! {

/// Caller convenience for builder-style updates: wraps an operation that
/// turns an owned value into a new value.
pub struct Call<F> {
    pub op: F,
}

impl<F> Call<F> {
    /// Run the wrapped operation on `val`.
    pub fn call<T>(self, val: T) -> (r: T) where F: FnOnce(T) -> T
        requires
            call_requires(self.op, (val,)),
        ensures
            call_ensures(self.op, (val,), r),
    {
        (self.op)(val)
    }
}

impl<F> From<F> for Call<F> {
    fn from(op: F) -> (r: Call<F>) {
        Call { op }
    }
}

impl<F> vstd::std_specs::convert::FromSpecImpl<F> for Call<F> {
    open spec fn obeys_from_spec() -> bool {
        true
    }

    open spec fn from_spec(op: F) -> Call<F> {
        Call { op }
    }
}

/// As `Call`, for operations that can fail.
pub struct TryCall<F> {
    pub op: F,
}

impl<F> TryCall<F> {
    /// Run the wrapped operation on `val`.
    pub fn call<T>(self, val: T) -> (r: Result<T, Error>) where F: FnOnce(T) -> Result<T, Error>
        requires
            call_requires(self.op, (val,)),
        ensures
            call_ensures(self.op, (val,), r),
    {
        (self.op)(val)
    }
}

impl<F> From<F> for TryCall<F> {
    fn from(op: F) -> (r: TryCall<F>) {
        TryCall { op }
    }
}

impl<F> vstd::std_specs::convert::FromSpecImpl<F> for TryCall<F> {
    open spec fn obeys_from_spec() -> bool {
        true
    }

    open spec fn from_spec(op: F) -> TryCall<F> {
        TryCall { op }
    }
}

/// A parameter holder can veto its current value; builders call `check`
/// after every update. By default every value is acceptable.
pub trait ParamGuard {
    type Error;

    fn check(&self) -> Result<(), Self::Error> {
        Ok(())
    }
}

/// A minimal parameter holder: one seed value behind the guard protocol.
pub struct Param<const C: bool, T> {
    pub seed: T,
}

impl<const C: bool, T> ParamGuard for Param<C, T> {
    type Error = crate::error::Error;

    /// Any seed is acceptable.
    fn check(&self) -> (r: Result<(), Error>)
        ensures
            r is Ok,
    {
        Ok(())
    }
}

impl<T: Default> Default for Param<true, T> {
    /// A checked parameter holder over the seed type's default.
    fn default() -> Param<true, T> {
        Param { seed: T::default() }
    }
}

} // verus!
