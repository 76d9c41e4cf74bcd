//! Service values, their type tags, and the lockable cell a container keeps
//! for each of them.
use vstd::prelude::*;
use std::sync::RwLock;
use crate::errors::LockFailure;
use crate::guards::ReadGuard;
use crate::guards::WriteGuard;
use crate::sync::rwlock_new;
use crate::sync::rwlock_read;
use crate::sync::rwlock_try_read;
use crate::sync::rwlock_try_write;
use crate::sync::rwlock_write;

verus! {

/// Names the concrete type of a service value at run time.
///
/// Two tags are the same type if and only if their `id`s are equal.
#[derive(Clone, Copy, Debug, PartialEq, Eq, Hash, Structural)]
pub struct TypeTag {
    pub id: u64,
}

/// A service value of the base type `V`, together with the tag of the concrete
/// type it was made from.
#[derive(Debug)]
pub struct ServiceHandle<V> {
    pub tag: TypeTag,
    pub value: V,
}

impl<V> ServiceHandle<V> {
    pub fn new(tag: TypeTag, value: V) -> (handle: Self)
        ensures
            handle.tag == tag,
            handle.value == value,
    {
        ServiceHandle { tag, value }
    }
}

/// The slot that a container keeps for one service: the tag, fixed when the
/// service is registered, and the value behind a reader-writer lock.
#[verifier::reject_recursive_types(V)]
pub struct ServiceCell<V> {
    tag: TypeTag,
    lock: RwLock<V>,
}

impl<V> ServiceCell<V> {
    /// The tag that the service was registered with.
    pub closed spec fn spec_tag(&self) -> TypeTag {
        self.tag
    }

    /// Puts the value of `handle` behind a fresh lock.
    pub fn new(handle: ServiceHandle<V>) -> (cell: Self)
        ensures
            cell.spec_tag() == handle.tag,
    {
        ServiceCell { tag: handle.tag, lock: rwlock_new(handle.value) }
    }

    #[verifier::when_used_as_spec(spec_tag)]
    pub fn tag(&self) -> (tag: TypeTag)
        ensures
            tag == self.spec_tag(),
    {
        self.tag
    }

    /// Waits for shared access. The only failure is a poisoned lock.
    ///
    /// A thread that holds a write guard of this cell must not call this:
    /// it would wait for itself.
    pub fn read<'a>(&'a self) -> (r: Result<ReadGuard<'a, V>, LockFailure>)
        ensures
            match r {
                Ok(guard) => guard.cell() == *self,
                Err(failure) => failure == LockFailure::Poisoned,
            },
    {
        match LockFailure::waited(rwlock_read(&self.lock)) {
            Ok(inner) => Ok(ReadGuard::new(self, inner)),
            Err(failure) => Err(failure),
        }
    }

    /// Waits for exclusive access. The only failure is a poisoned lock.
    ///
    /// A thread that holds a guard of this cell must not call this: it
    /// would wait for itself.
    pub fn write<'a>(&'a self) -> (r: Result<WriteGuard<'a, V>, LockFailure>)
        ensures
            match r {
                Ok(guard) => guard.cell() == *self,
                Err(failure) => failure == LockFailure::Poisoned,
            },
    {
        match LockFailure::waited(rwlock_write(&self.lock)) {
            Ok(inner) => Ok(WriteGuard::new(self, inner)),
            Err(failure) => Err(failure),
        }
    }

    /// Asks for shared access without waiting.
    pub fn try_read<'a>(&'a self) -> (r: Result<ReadGuard<'a, V>, LockFailure>)
        ensures
            r is Ok ==> r->Ok_0.cell() == *self,
    {
        match LockFailure::tried(rwlock_try_read(&self.lock)) {
            Ok(inner) => Ok(ReadGuard::new(self, inner)),
            Err(failure) => Err(failure),
        }
    }

    /// Asks for exclusive access without waiting.
    pub fn try_write<'a>(&'a self) -> (r: Result<WriteGuard<'a, V>, LockFailure>)
        ensures
            r is Ok ==> r->Ok_0.cell() == *self,
    {
        match LockFailure::tried(rwlock_try_write(&self.lock)) {
            Ok(inner) => Ok(WriteGuard::new(self, inner)),
            Err(failure) => Err(failure),
        }
    }
}

} // verus!
