//! Access to one service of any collection of cells that can be searched by
//! key.
use vstd::prelude::*;
use crate::errors::Error;
use crate::errors::or_err;
use crate::guards::ReadGuard;
use crate::guards::WriteGuard;
use crate::guards::access_outcome;
use crate::reflect::Key;
use crate::service::ServiceCell;
use crate::service::TypeTag;

verus! {

/// A collection of cells that can be searched by key.
pub trait Services<K: Key, V> {
    /// The cell that a search for each key ends at.
    spec fn cells(&self) -> Map<K, ServiceCell<V>>;

    /// What the collection needs to be searched.
    spec fn valid(&self) -> bool;

    /// The cell under `key`, if there is one.
    fn find<'a>(&'a self, key: &K) -> (found: Option<&'a ServiceCell<V>>)
        requires
            self.valid(),
        ensures
            found == (if self.cells().contains_key(*key) {
                Some(&self.cells()[*key])
            } else {
                None
            }),
    ;
}

/// Waits for shared access to the service under `key`, whatever its type.
///
/// A thread that keeps a write guard of the service must ask without
/// waiting instead: this call would wait for the thread itself.
pub fn read_base<'a, K: Key, V, S: Services<K, V>>(src: &'a S, key: &'a K) -> (r: Result<
    ReadGuard<'a, V>,
    Error<'a, K>,
>)
    requires
        src.valid(),
    ensures
        access_outcome(src.cells(), key, None, true, r),
{
    match src.find(key) {
        Some(cell) => or_err(key, cell.read()),
        None => Err(Error::NotFound { key }),
    }
}

/// Waits for exclusive access to the service under `key`, whatever its type.
///
/// A thread that keeps a guard of the service must ask without waiting
/// instead: this call would wait for the thread itself.
pub fn write_base<'a, K: Key, V, S: Services<K, V>>(src: &'a S, key: &'a K) -> (r: Result<
    WriteGuard<'a, V>,
    Error<'a, K>,
>)
    requires
        src.valid(),
    ensures
        access_outcome(src.cells(), key, None, true, r),
{
    match src.find(key) {
        Some(cell) => or_err(key, cell.write()),
        None => Err(Error::NotFound { key }),
    }
}

/// Asks for shared access to the service under `key` without waiting,
/// whatever its type.
pub fn try_read_base<'a, K: Key, V, S: Services<K, V>>(src: &'a S, key: &'a K) -> (r: Result<
    ReadGuard<'a, V>,
    Error<'a, K>,
>)
    requires
        src.valid(),
    ensures
        access_outcome(src.cells(), key, None, false, r),
{
    match src.find(key) {
        Some(cell) => or_err(key, cell.try_read()),
        None => Err(Error::NotFound { key }),
    }
}

/// Asks for exclusive access to the service under `key` without waiting,
/// whatever its type.
pub fn try_write_base<'a, K: Key, V, S: Services<K, V>>(src: &'a S, key: &'a K) -> (r: Result<
    WriteGuard<'a, V>,
    Error<'a, K>,
>)
    requires
        src.valid(),
    ensures
        access_outcome(src.cells(), key, None, false, r),
{
    match src.find(key) {
        Some(cell) => or_err(key, cell.try_write()),
        None => Err(Error::NotFound { key }),
    }
}

/// Shared access to the service under `key`, checked to be registered as
/// `expected`. The lock is taken first, waiting for it if `waits`; on a
/// mismatch it is released before the call returns. A thread that keeps a
/// write guard of the service must not let the call wait.
pub fn read_typed<'a, K: Key, V, S: Services<K, V>>(
    src: &'a S,
    key: &'a K,
    expected: TypeTag,
    waits: bool,
) -> (r: Result<ReadGuard<'a, V>, Error<'a, K>>)
    requires
        src.valid(),
    ensures
        access_outcome(src.cells(), key, Some(expected), waits, r),
{
    let base = if waits {
        read_base(src, key)
    } else {
        try_read_base(src, key)
    };
    match base {
        Ok(guard) => guard.expect_type(key, expected),
        Err(err) => Err(err),
    }
}

/// Exclusive access to the service under `key`, checked to be registered as
/// `expected`. The lock is taken first, waiting for it if `waits`; on a
/// mismatch it is released before the call returns. A thread that keeps a
/// guard of the service must not let the call wait.
pub fn write_typed<'a, K: Key, V, S: Services<K, V>>(
    src: &'a S,
    key: &'a K,
    expected: TypeTag,
    waits: bool,
) -> (r: Result<WriteGuard<'a, V>, Error<'a, K>>)
    requires
        src.valid(),
    ensures
        access_outcome(src.cells(), key, Some(expected), waits, r),
{
    let base = if waits {
        write_base(src, key)
    } else {
        try_write_base(src, key)
    };
    match base {
        Ok(guard) => guard.expect_type(key, expected),
        Err(err) => Err(err),
    }
}

} // verus!
