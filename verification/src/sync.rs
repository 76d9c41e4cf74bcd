//! The standard library's locks, as far as the registry uses them.
//!
//! Nothing here is proved. Each type is an opaque value to the verifier, and
//! each function states only what the standard library documents for every
//! outcome of the call: whether a lock is granted, poisoned or busy depends on
//! what other threads hold, so no contract predicts it.
use vstd::prelude::*;
use std::sync::Mutex;
use std::sync::MutexGuard;
use std::sync::PoisonError;
use std::sync::RwLock;
use std::sync::RwLockReadGuard;
use std::sync::RwLockWriteGuard;
use std::sync::TryLockError;

verus! {

/// `std::sync::RwLock`, carried as an opaque value.
#[verifier::external_type_specification]
#[verifier::external_body]
#[verifier::reject_recursive_types(T)]
pub struct ExRwLock<T: ?Sized>(RwLock<T>);

/// `std::sync::RwLockReadGuard`, carried as an opaque value.
#[verifier::external_type_specification]
#[verifier::external_body]
#[verifier::reject_recursive_types(T)]
pub struct ExRwLockReadGuard<'a, T: ?Sized>(RwLockReadGuard<'a, T>);

/// `std::sync::RwLockWriteGuard`, carried as an opaque value.
#[verifier::external_type_specification]
#[verifier::external_body]
#[verifier::reject_recursive_types(T)]
pub struct ExRwLockWriteGuard<'a, T: ?Sized + 'a>(RwLockWriteGuard<'a, T>);

/// `std::sync::Mutex`, carried as an opaque value.
#[verifier::external_type_specification]
#[verifier::external_body]
#[verifier::reject_recursive_types(T)]
pub struct ExMutex<T: ?Sized>(Mutex<T>);

/// `std::sync::MutexGuard`, carried as an opaque value.
#[verifier::external_type_specification]
#[verifier::external_body]
#[verifier::reject_recursive_types(T)]
pub struct ExMutexGuard<'a, T: ?Sized + 'a>(MutexGuard<'a, T>);

/// `std::sync::PoisonError`, carried as an opaque value.
#[verifier::external_type_specification]
#[verifier::external_body]
#[verifier::reject_recursive_types(T)]
pub struct ExPoisonError<T>(PoisonError<T>);

/// `std::sync::TryLockError`, with its two variants visible.
#[verifier::external_type_specification]
#[verifier::reject_recursive_types(T)]
pub struct ExTryLockError<T>(TryLockError<T>);

/// Calls `RwLock::new`. The new lock owns `value`; nothing is claimed of it.
#[verifier::external_body]
pub(crate) fn rwlock_new<V>(value: V) -> (lock: RwLock<V>) {
    RwLock::new(value)
}

/// Calls `RwLock::read`, which waits until shared access is possible.
///
/// Nothing is claimed of the result: it is a guard, or a poison error where
/// an earlier exclusive holder panicked. Where the calling thread itself
/// holds the lock already, the standard library lets the call wait for ever
/// or panic. Which thread holds a lock is beyond any contract: within one
/// call the containers never wait for a lock that the call has taken, and a
/// caller who keeps a guard is told to ask without waiting.
#[verifier::external_body]
pub(crate) fn rwlock_read<'a, V>(lock: &'a RwLock<V>) -> (r: Result<
    RwLockReadGuard<'a, V>,
    PoisonError<RwLockReadGuard<'a, V>>,
>) {
    lock.read()
}

/// Calls `RwLock::write`, which waits until exclusive access is possible.
///
/// Nothing is claimed of the result: it is a guard, or a poison error where
/// an earlier exclusive holder panicked. Where the calling thread itself
/// holds the lock already, the standard library lets the call wait for ever
/// or panic. Within one call the containers never wait for a lock that the
/// call has taken, and a caller who keeps a guard is told to ask without
/// waiting.
#[verifier::external_body]
pub(crate) fn rwlock_write<'a, V>(lock: &'a RwLock<V>) -> (r: Result<
    RwLockWriteGuard<'a, V>,
    PoisonError<RwLockWriteGuard<'a, V>>,
>) {
    lock.write()
}

/// Calls `RwLock::try_read`, which never waits.
///
/// Nothing is claimed of the result: a guard, `TryLockError::WouldBlock`
/// where the lock is held exclusively, or `TryLockError::Poisoned`.
#[verifier::external_body]
pub(crate) fn rwlock_try_read<'a, V>(lock: &'a RwLock<V>) -> (r: Result<
    RwLockReadGuard<'a, V>,
    TryLockError<RwLockReadGuard<'a, V>>,
>) {
    lock.try_read()
}

/// Calls `RwLock::try_write`, which never waits.
///
/// Nothing is claimed of the result: a guard, `TryLockError::WouldBlock`
/// where the lock is held, or `TryLockError::Poisoned`.
#[verifier::external_body]
pub(crate) fn rwlock_try_write<'a, V>(lock: &'a RwLock<V>) -> (r: Result<
    RwLockWriteGuard<'a, V>,
    TryLockError<RwLockWriteGuard<'a, V>>,
>) {
    lock.try_write()
}

/// Dereferences an `RwLockReadGuard` (`Deref::deref`). The value behind a
/// lock changes under other holders, so nothing is claimed of it.
#[verifier::external_body]
pub(crate) fn read_guard_value<'g, 'a, V>(guard: &'g RwLockReadGuard<'a, V>) -> (value: &'g V) {
    &**guard
}

/// Dereferences an `RwLockWriteGuard` (`Deref::deref`). Nothing is claimed of
/// the value.
#[verifier::external_body]
pub(crate) fn write_guard_value<'g, 'a, V>(guard: &'g RwLockWriteGuard<'a, V>) -> (value: &'g V) {
    &**guard
}

/// Dereferences an `RwLockWriteGuard` mutably (`DerefMut::deref_mut`).
/// Nothing is claimed of the value, before or after.
#[verifier::external_body]
pub(crate) fn write_guard_value_mut<'g, 'a, V>(guard: &'g mut RwLockWriteGuard<'a, V>) -> (value:
    &'g mut V) {
    &mut **guard
}

/// Calls `Mutex::new` on the unit value.
#[verifier::external_body]
pub(crate) fn mutex_new() -> (lock: Mutex<()>) {
    Mutex::new(())
}

/// Calls `Mutex::lock`, which waits until the mutex is free.
///
/// Nothing is claimed of the result. In both of its cases it owns the guard,
/// so the mutex stays held for as long as the result is kept. Where the
/// calling thread itself holds the mutex already, the standard library lets
/// the call wait for ever or panic; the containers never call this while
/// they hold the mutex.
#[verifier::external_body]
pub(crate) fn mutex_lock<'a>(lock: &'a Mutex<()>) -> (r: Result<
    MutexGuard<'a, ()>,
    PoisonError<MutexGuard<'a, ()>>,
>) {
    lock.lock()
}

} // verus!
