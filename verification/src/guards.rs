//! Guards: access to one service for as long as the guard lives.
use vstd::prelude::*;
use std::sync::RwLockReadGuard;
use std::sync::RwLockWriteGuard;
use crate::errors::Error;
use crate::reflect::Key;
use crate::reflect::key_before;
use crate::service::ServiceCell;
use crate::service::TypeTag;
use crate::sync::read_guard_value;
use crate::sync::write_guard_value;
use crate::sync::write_guard_value_mut;

verus! {

/// A guard of either kind: it belongs to one cell.
pub trait Guarded<V> {
    /// The cell that the guard gives access to.
    spec fn guarded(&self) -> ServiceCell<V>;
}

/// Whether `r` is an answer that one access to `key` may give on `cells`.
///
/// `expected` is the tag that the caller asked for, if it asked for one;
/// `waits` says whether the call was allowed to wait for the lock.
/// Whether a lock is granted is not decided here; everything else is: a
/// missing key is `NotFound` and nothing else, a granted lock on a service of
/// another type is `MismatchedType` with both tags, a call that waits never
/// answers `WouldBlock`, and a guard belongs to the cell under `key`.
pub open spec fn access_outcome<'a, K, V, G: Guarded<V>>(
    cells: Map<K, ServiceCell<V>>,
    key: &'a K,
    expected: Option<TypeTag>,
    waits: bool,
    r: Result<G, Error<'a, K>>,
) -> bool {
    match r {
        Ok(guard) => {
            &&& cells.contains_key(*key)
            &&& guard.guarded() == cells[*key]
            &&& expected is Some ==> cells[*key].spec_tag() == expected->Some_0
        },
        Err(Error::NotFound { key: k }) => k == key && !cells.contains_key(*key),
        Err(Error::Poisoned { key: k }) => k == key && cells.contains_key(*key),
        Err(Error::WouldBlock { key: k }) => k == key && cells.contains_key(*key) && !waits,
        Err(Error::MismatchedType { key: k, expected: e, found }) => {
            &&& k == key
            &&& cells.contains_key(*key)
            &&& expected == Some(e)
            &&& found == cells[*key].spec_tag()
            &&& found != e
        },
        Err(Error::CompositeError { .. }) => false,
    }
}

/// Whether `r` is an answer that a waiting access to all of `cells` may give:
/// one guard for each key, in ascending order of the keys, or the poisoned
/// lock that ended the call.
pub open spec fn bulk_outcome<'a, K: Key, V, G: Guarded<V>>(
    cells: Map<K, ServiceCell<V>>,
    r: Result<Vec<(&'a K, G)>, Error<'a, K>>,
) -> bool {
    match r {
        Ok(guards) => {
            &&& guards.len() == cells.dom().len()
            &&& forall|i: int, j: int|
                0 <= i < j < guards.len() ==> key_before(
                    *(#[trigger] guards[i]).0,
                    *(#[trigger] guards[j]).0,
                )
            &&& forall|i: int|
                0 <= i < guards.len() ==> cells.contains_key(*(#[trigger] guards[i]).0)
                    && guards[i].1.guarded() == cells[*guards[i].0]
            &&& forall|k: K|
                cells.contains_key(k) ==> exists|i: int|
                    0 <= i < guards.len() && *(#[trigger] guards[i]).0 == k
        },
        Err(Error::Poisoned { key }) => cells.contains_key(*key),
        Err(_) => false,
    }
}

/// A guard for each entry of a map, taken in the order in which the map hands
/// its entries out, is a full answer of a bulk call.
pub proof fn lemma_bulk_complete<'a, K: Key, V, G: Guarded<V>>(
    cells: Map<K, ServiceCell<V>>,
    items: Seq<(&'a K, &'a ServiceCell<V>)>,
    guards: Vec<(&'a K, G)>,
)
    requires
        items.len() == cells.dom().len(),
        forall|i: int|
            0 <= i < items.len() ==> cells.contains_key(*(#[trigger] items[i]).0) && cells[*items[i].0]
                == *items[i].1,
        forall|k: K| #[trigger] cells.contains_key(k) ==> items.contains((&k, &cells[k])),
        forall|i: int, j: int|
            0 <= i < j < items.len() ==> key_before(*(#[trigger] items[i]).0, *(#[trigger] items[j]).0),
        guards.len() == items.len(),
        forall|i: int|
            0 <= i < guards.len() ==> *(#[trigger] guards[i]).0 == *items[i].0
                && guards[i].1.guarded() == *items[i].1,
    ensures
        bulk_outcome(cells, Ok(guards)),
{
    assert forall|i: int, j: int| 0 <= i < j < guards.len() implies key_before(
        *(#[trigger] guards[i]).0,
        *(#[trigger] guards[j]).0,
    ) by {
        assert(key_before(*items[i].0, *items[j].0));
    }
    assert forall|k: K| cells.contains_key(k) implies exists|i: int|
        0 <= i < guards.len() && *(#[trigger] guards[i]).0 == k by {
        assert(items.contains((&k, &cells[k])));
        let i = choose|i: int| 0 <= i < items.len() && items[i] == (&k, &cells[k]);
        assert(*guards[i].0 == k);
    }
}

/// Shared access to the service in one cell. The lock is released when the
/// guard is dropped.
#[verifier::reject_recursive_types(V)]
pub struct ReadGuard<'a, V> {
    cell: &'a ServiceCell<V>,
    inner: RwLockReadGuard<'a, V>,
}

impl<'a, V> ReadGuard<'a, V> {
    /// The cell that this guard gives access to.
    pub closed spec fn cell(&self) -> ServiceCell<V> {
        *self.cell
    }

    /// The tag of the service behind the guard.
    pub open spec fn spec_tag(&self) -> TypeTag {
        self.cell().spec_tag()
    }

    pub(crate) fn new(cell: &'a ServiceCell<V>, inner: RwLockReadGuard<'a, V>) -> (guard: Self)
        ensures
            guard.cell() == *cell,
    {
        ReadGuard { cell, inner }
    }

    #[verifier::when_used_as_spec(spec_tag)]
    pub fn tag(&self) -> (tag: TypeTag)
        ensures
            tag == self.spec_tag(),
    {
        self.cell.tag()
    }

    /// The service value, for reading.
    pub fn get(&self) -> (value: &V) {
        read_guard_value(&self.inner)
    }

    /// Keeps the guard if the service was registered as `expected`;
    /// otherwise releases it and reports the mismatch.
    pub fn expect_type<K>(self, key: &'a K, expected: TypeTag) -> (r: Result<Self, Error<'a, K>>)
        ensures
            r == (if self.spec_tag() == expected {
                Ok::<Self, Error<'a, K>>(self)
            } else {
                Err(Error::MismatchedType { key, expected, found: self.spec_tag() })
            }),
    {
        let found = self.tag();
        if found == expected {
            Ok(self)
        } else {
            Err(Error::MismatchedType { key, expected, found })
        }
    }
}

impl<'a, V> Guarded<V> for ReadGuard<'a, V> {
    open spec fn guarded(&self) -> ServiceCell<V> {
        self.cell()
    }
}

impl<'a, V> Guarded<V> for WriteGuard<'a, V> {
    open spec fn guarded(&self) -> ServiceCell<V> {
        self.cell()
    }
}

/// Exclusive access to the service in one cell. The lock is released when the
/// guard is dropped.
#[verifier::reject_recursive_types(V)]
pub struct WriteGuard<'a, V> {
    cell: &'a ServiceCell<V>,
    inner: RwLockWriteGuard<'a, V>,
}

impl<'a, V> WriteGuard<'a, V> {
    /// The cell that this guard gives access to.
    pub closed spec fn cell(&self) -> ServiceCell<V> {
        *self.cell
    }

    /// The tag of the service behind the guard.
    pub open spec fn spec_tag(&self) -> TypeTag {
        self.cell().spec_tag()
    }

    pub(crate) fn new(cell: &'a ServiceCell<V>, inner: RwLockWriteGuard<'a, V>) -> (guard: Self)
        ensures
            guard.cell() == *cell,
    {
        WriteGuard { cell, inner }
    }

    #[verifier::when_used_as_spec(spec_tag)]
    pub fn tag(&self) -> (tag: TypeTag)
        ensures
            tag == self.spec_tag(),
    {
        self.cell.tag()
    }

    /// The service value, for reading.
    pub fn get(&self) -> (value: &V) {
        write_guard_value(&self.inner)
    }

    /// The service value, for writing. The guard still belongs to the same
    /// cell afterwards.
    pub fn get_mut(&mut self) -> (value: &mut V)
        ensures
            final(self).cell() == old(self).cell(),
    {
        write_guard_value_mut(&mut self.inner)
    }

    /// Keeps the guard if the service was registered as `expected`;
    /// otherwise releases it and reports the mismatch.
    pub fn expect_type<K>(self, key: &'a K, expected: TypeTag) -> (r: Result<Self, Error<'a, K>>)
        ensures
            r == (if self.spec_tag() == expected {
                Ok::<Self, Error<'a, K>>(self)
            } else {
                Err(Error::MismatchedType { key, expected, found: self.spec_tag() })
            }),
    {
        let found = self.tag();
        if found == expected {
            Ok(self)
        } else {
            Err(Error::MismatchedType { key, expected, found })
        }
    }
}

/// A service that was registered is served: once `cell` stands under `key`,
/// an access that asks for the tag of `cell`, or for no tag, ends in a guard
/// of `cell` unless the lock itself refuses. It is never `NotFound` and never
/// `MismatchedType`.
pub proof fn lemma_registered_is_served<'a, K, V, G: Guarded<V>>(
    before: Map<K, ServiceCell<V>>,
    key: &'a K,
    cell: ServiceCell<V>,
    expected: Option<TypeTag>,
    waits: bool,
    r: Result<G, Error<'a, K>>,
)
    requires
        expected matches Some(tag) ==> tag == cell.spec_tag(),
        access_outcome(before.insert(*key, cell), key, expected, waits, r),
    ensures
        match r {
            Ok(guard) => guard.guarded() == cell,
            Err(err) => err == (Error::Poisoned { key }) || (!waits && err == (Error::WouldBlock {
                key,
            })),
        },
{
}

/// A service that was unregistered is gone: every access to its key is
/// `NotFound`, whatever tag is asked for.
pub proof fn lemma_unregistered_is_not_found<'a, K, V, G: Guarded<V>>(
    before: Map<K, ServiceCell<V>>,
    key: &'a K,
    expected: Option<TypeTag>,
    waits: bool,
    r: Result<G, Error<'a, K>>,
)
    requires
        access_outcome(before.remove(*key), key, expected, waits, r),
    ensures
        r == Err::<G, Error<'a, K>>(Error::NotFound { key }),
{
}

/// A service is never seen through another type: an access that asks for a
/// tag other than the one the service was registered with gives no guard.
/// Where the lock is granted, the answer is `MismatchedType` with the tag
/// asked for and the tag registered.
pub proof fn lemma_other_type_is_refused<'a, K, V, G: Guarded<V>>(
    cells: Map<K, ServiceCell<V>>,
    key: &'a K,
    asked: TypeTag,
    waits: bool,
    r: Result<G, Error<'a, K>>,
)
    requires
        cells.contains_key(*key),
        cells[*key].spec_tag() != asked,
        access_outcome(cells, key, Some(asked), waits, r),
    ensures
        r is Err,
        r->Err_0 == (Error::MismatchedType { key, expected: asked, found: cells[*key].spec_tag() })
            || r->Err_0 == (Error::Poisoned { key }) || (!waits && r->Err_0 == (Error::WouldBlock {
            key,
        })),
{
}

} // verus!
