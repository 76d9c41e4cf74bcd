//! The errors that the containers return.
use vstd::prelude::*;
use std::sync::PoisonError;
use std::sync::TryLockError;
use crate::service::TypeTag;

verus! {

/// Why a lock was not granted.
#[derive(Clone, Copy, Debug, PartialEq, Eq, Structural)]
pub enum LockFailure {
    /// An earlier exclusive holder panicked while it held the lock.
    Poisoned,
    /// The lock is held by someone else and the caller asked not to wait.
    WouldBlock,
}

impl LockFailure {
    /// The failure that a poison error of the standard library stands for.
    /// The guard inside the error is released.
    pub fn from_poison<G>(err: PoisonError<G>) -> (failure: LockFailure)
        ensures
            failure == LockFailure::Poisoned,
    {
        let _ = err;
        LockFailure::Poisoned
    }

    /// The failure that a non-blocking attempt of the standard library
    /// reported. A guard inside the error is released.
    pub fn from_try_lock<G>(err: TryLockError<G>) -> (failure: LockFailure)
        ensures
            failure == (match err {
                TryLockError::Poisoned(_) => LockFailure::Poisoned,
                TryLockError::WouldBlock => LockFailure::WouldBlock,
            }),
    {
        match err {
            TryLockError::Poisoned(_) => LockFailure::Poisoned,
            TryLockError::WouldBlock => LockFailure::WouldBlock,
        }
    }

    /// What a waiting attempt on a lock came to: the guard where the lock
    /// granted one, `Poisoned` where it did not.
    pub fn waited<G>(attempt: Result<G, PoisonError<G>>) -> (r: Result<G, LockFailure>)
        ensures
            r == (match attempt {
                Ok(guard) => Ok::<G, LockFailure>(guard),
                Err(_) => Err(LockFailure::Poisoned),
            }),
    {
        match attempt {
            Ok(guard) => Ok(guard),
            Err(err) => Err(LockFailure::from_poison(err)),
        }
    }

    /// What an attempt without waiting came to: the guard where the lock
    /// granted one, and otherwise the failure that the lock reported.
    pub fn tried<G>(attempt: Result<G, TryLockError<G>>) -> (r: Result<G, LockFailure>)
        ensures
            r == (match attempt {
                Ok(guard) => Ok::<G, LockFailure>(guard),
                Err(TryLockError::Poisoned(_)) => Err(LockFailure::Poisoned),
                Err(TryLockError::WouldBlock) => Err(LockFailure::WouldBlock),
            }),
    {
        match attempt {
            Ok(guard) => Ok(guard),
            Err(err) => Err(LockFailure::from_try_lock(err)),
        }
    }
}

/// The error of a factory that never fails. It has no value.
#[derive(Debug)]
pub struct DummyError(());

/// What a call on a container can fail with.
#[derive(Debug)]
pub enum Error<'a, K> {
    /// No service is registered under `key`.
    NotFound { key: &'a K },
    /// The lock of the service under `key` is poisoned.
    Poisoned { key: &'a K },
    /// The service under `key` is held by someone else, and the caller asked
    /// not to wait.
    WouldBlock { key: &'a K },
    /// The service under `key` was registered as `found`, not as `expected`.
    MismatchedType { key: &'a K, expected: TypeTag, found: TypeTag },
    /// The request at position `index` of a composite request failed with
    /// `cause`.
    CompositeError { index: usize, cause: Box<Error<'a, K>> },
}

impl<'a, K> Error<'a, K> {
    /// The error that `failure` on the lock of `key` is reported as.
    pub open spec fn of_failure(key: &'a K, failure: LockFailure) -> Error<'a, K> {
        match failure {
            LockFailure::Poisoned => Error::Poisoned { key },
            LockFailure::WouldBlock => Error::WouldBlock { key },
        }
    }

    /// Reports `failure` on the lock of `key`.
    pub fn from_failure(key: &'a K, failure: LockFailure) -> (err: Error<'a, K>)
        ensures
            err == Self::of_failure(key, failure),
    {
        match failure {
            LockFailure::Poisoned => Error::Poisoned { key },
            LockFailure::WouldBlock => Error::WouldBlock { key },
        }
    }

    /// A fixed sentence for each kind of error.
    pub fn description(&self) -> (text: &'static str)
        ensures
            text@ == (match *self {
                Error::NotFound { .. } => "Service could not be found"@,
                Error::Poisoned { .. } => "Service could not be aquired, mutex was poisoned"@,
                Error::WouldBlock { .. } => "Service could not be aquired, mutex would block"@,
                Error::MismatchedType { .. } => "Service is of wrong type"@,
                Error::CompositeError { .. } => "Part of a composite request failed"@,
            }),
    {
        match self {
            Error::NotFound { .. } => "Service could not be found",
            Error::Poisoned { .. } => "Service could not be aquired, mutex was poisoned",
            Error::WouldBlock { .. } => "Service could not be aquired, mutex would block",
            Error::MismatchedType { .. } => "Service is of wrong type",
            Error::CompositeError { .. } => "Part of a composite request failed",
        }
    }
}

/// Turns the answer of a lock into the answer of a container: a granted lock
/// passes through, a failure becomes the error that names `key`.
pub fn or_err<'a, K, X>(key: &'a K, res: Result<X, LockFailure>) -> (r: Result<X, Error<'a, K>>)
    ensures
        r == (match res {
            Ok(x) => Ok::<X, Error<'a, K>>(x),
            Err(failure) => Err(Error::of_failure(key, failure)),
        }),
{
    match res {
        Ok(x) => Ok(x),
        Err(failure) => Err(Error::from_failure(key, failure)),
    }
}

} // verus!
