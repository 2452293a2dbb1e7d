//! Conversions between the backend's message types and its own values.
//!
//! `QcmFrom` / `QcmTryFrom` are implemented by each pair of types;
//! `QcmInto` / `QcmTryInto` come with them, the way `Into` comes with
//! `From` in std.
use vstd::prelude::*;

verus! {

/// A value built from a `T`.
pub trait QcmFrom<T>: Sized {
    fn qcm_from(value: T) -> Self;
}

/// A value turned into a `T`.
pub trait QcmInto<T>: Sized {
    fn qcm_into(self) -> T;
}

/// A value built from a `T`, which may fail.
pub trait QcmTryFrom<T>: Sized {
    type Error;

    fn qcm_try_from(value: T) -> Result<Self, Self::Error>;
}

/// A value turned into a `T`, which may fail.
pub trait QcmTryInto<T>: Sized {
    type Error;

    fn qcm_try_into(self) -> Result<T, Self::Error>;
}

impl<T, U> QcmInto<U> for T where U: QcmFrom<T> {
    /// What `U::qcm_from` gives for `self`.
    fn qcm_into(self) -> (r: U)
        ensures
            call_ensures(U::qcm_from, (self,), r),
    {
        U::qcm_from(self)
    }
}

impl<T, U> QcmTryInto<U> for T where U: QcmTryFrom<T> {
    type Error = U::Error;

    /// What `U::qcm_try_from` gives for `self`.
    fn qcm_try_into(self) -> (r: Result<U, U::Error>)
        ensures
            call_ensures(U::qcm_try_from, (self,), r),
    {
        U::qcm_try_from(self)
    }
}

} // verus!
