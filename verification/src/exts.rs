//! Small extensions on `Option` and `Result`.
//!
//! `err_or` turns a present value into a failure and an absent one into the
//! given success, which suits validators that scan for an offending element;
//! `swap` flips a result's sides.

use vstd::prelude::*;

verus! {

/// Flipping a result's sides: the success becomes the failure and the other
/// way round.
pub trait SwapResult<T1, E1>: Sized {
    /// The value with its sides flipped.
    spec fn spec_swap(self) -> Result<E1, T1>;

    /// Flips the sides.
    fn swap(self) -> (r: Result<E1, T1>)
        ensures
            r == self.spec_swap(),
    ;
}

impl<T, E> SwapResult<T, E> for Result<T, E> {
    open spec fn spec_swap(self) -> Result<E, T> {
        match self {
            Ok(t) => Err(t),
            Err(e) => Ok(e),
        }
    }

    fn swap(self) -> (r: Result<E, T>) {
        match self {
            Ok(t) => Err(t),
            Err(e) => Ok(e),
        }
    }
}

/// Flipping a result's sides, under the older of the two names.
pub trait ResultExt<T1, E1>: Sized {
    /// The value with its sides flipped.
    spec fn spec_swapped(self) -> Result<E1, T1>;

    /// Flips the sides.
    fn swap(self) -> (r: Result<E1, T1>)
        ensures
            r == self.spec_swapped(),
    ;
}

impl<T, E> ResultExt<T, E> for Result<T, E> {
    open spec fn spec_swapped(self) -> Result<E, T> {
        match self {
            Ok(t) => Err(t),
            Err(e) => Ok(e),
        }
    }

    fn swap(self) -> (r: Result<E, T>) {
        match self {
            Ok(t) => Err(t),
            Err(e) => Ok(e),
        }
    }
}

/// Turning a present value into the failure of a result.
pub trait OptionExt<T>: Sized {
    /// Whether a value is present.
    spec fn spec_is_some(self) -> bool;

    /// The present value; meaningful only when one is present.
    spec fn spec_value(self) -> T;

    /// The failure carrying the present value, or the given success.
    fn err_or<T2>(self, ok: T2) -> (r: Result<T2, T>)
        ensures
            self.spec_is_some() ==> (r matches Err(v) && v == self.spec_value()),
            !self.spec_is_some() ==> (r matches Ok(o) && o == ok),
    ;

    /// The failure carrying the present value, or the success the closure
    /// builds.
    fn err_or_else<T2, F: FnOnce() -> T2>(self, ok: F) -> (r: Result<T2, T>)
        requires
            !self.spec_is_some() ==> ok.requires(()),
        ensures
            self.spec_is_some() ==> (r matches Err(v) && v == self.spec_value()),
            !self.spec_is_some() ==> (r matches Ok(o) && ok.ensures((), o)),
    ;
}

impl<T> OptionExt<T> for Option<T> {
    open spec fn spec_is_some(self) -> bool {
        self is Some
    }

    open spec fn spec_value(self) -> T {
        self->0
    }

    fn err_or<T2>(self, ok: T2) -> (r: Result<T2, T>) {
        match self {
            Some(v) => Err(v),
            None => Ok(ok),
        }
    }

    fn err_or_else<T2, F: FnOnce() -> T2>(self, ok: F) -> (r: Result<T2, T>) {
        match self {
            Some(v) => Err(v),
            None => Ok(ok()),
        }
    }
}

} // verus!
