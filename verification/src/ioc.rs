//! The plain container: one lockable cell per key.
use vstd::prelude::*;
use std::collections::BTreeMap;
use crate::errors::Error;
use crate::access::Services;
use crate::access::read_base;
use crate::access::write_base;
use crate::guards::ReadGuard;
use crate::guards::WriteGuard;
use crate::guards::access_outcome;
use crate::guards::bulk_outcome;
use crate::guards::lemma_bulk_complete;
use crate::reflect::key_before;
use vstd::std_specs::btree::increasing_seq;
use vstd::std_specs::btree::axiom_increasing_seq_meaning;
use vstd::std_specs::iter::IteratorSpec;
use crate::reflect::Key;
use crate::reflect::key_laws;
use crate::reflect::Service;
use crate::service::ServiceCell;
use crate::service::ServiceHandle;

verus! {

/// The entries that a map hands out in ascending order of their keys stand
/// in the order of `key_before`.
proof fn lemma_entries_ascend<'a, K: Key, V>(items: Seq<(&'a K, &'a ServiceCell<V>)>)
    requires
        key_laws::<K>(),
        increasing_seq(items.map_values(|kv: (&K, &ServiceCell<V>)| *kv.0)),
    ensures
        forall|i: int, j: int|
            0 <= i < j < items.len() ==> key_before(*(#[trigger] items[i]).0, *(#[trigger] items[j]).0),
{
    let keys = items.map_values(|kv: (&K, &ServiceCell<V>)| *kv.0);
    axiom_increasing_seq_meaning(keys);
    assert forall|i: int, j: int| 0 <= i < j < items.len() implies key_before(
        *(#[trigger] items[i]).0,
        *(#[trigger] items[j]).0,
    ) by {
        assert(keys[i] == *items[i].0);
        assert(keys[j] == *items[j].0);
    }
}

/// A map from keys to services, each service behind its own lock.
#[verifier::reject_recursive_types(V)]
pub struct Ioc<K, V> {
    services: BTreeMap<K, ServiceCell<V>>,
}

impl<K: Key, V> View for Ioc<K, V> {
    type V = Map<K, ServiceCell<V>>;

    closed spec fn view(&self) -> Map<K, ServiceCell<V>> {
        self.services@
    }
}

impl<K: Key, V> Services<K, V> for Ioc<K, V> {
    open spec fn cells(&self) -> Map<K, ServiceCell<V>> {
        self@
    }

    open spec fn valid(&self) -> bool {
        self.wf()
    }

    fn find<'a>(&'a self, key: &K) -> (found: Option<&'a ServiceCell<V>>) {
        self.get_service(key)
    }
}

impl<K: Key, V> Ioc<K, V> {
    /// The keys obey their laws.
    pub open spec fn wf(&self) -> bool {
        key_laws::<K>()
    }

    pub fn new() -> (ioc: Self)
        requires
            key_laws::<K>(),
        ensures
            ioc.wf(),
            ioc@ == Map::<K, ServiceCell<V>>::empty(),
    {
        Ioc { services: BTreeMap::new() }
    }

    /// Puts `svc` under `key`, in a fresh cell. A service that was there
    /// before is dropped. No other key is touched.
    pub fn register_service(&mut self, key: K, svc: ServiceHandle<V>)
        requires
            old(self).wf(),
        ensures
            final(self).wf(),
            final(self)@ == old(self)@.insert(key, final(self)@[key]),
            final(self)@[key].spec_tag() == svc.tag,
    {
        let cell = ServiceCell::new(svc);
        let _ = self.services.insert(key, cell);
    }

    /// Removes the service under `key`, and says whether there was one.
    pub fn unregister_service(&mut self, key: &K) -> (removed: bool)
        requires
            old(self).wf(),
        ensures
            final(self).wf(),
            final(self)@ == old(self)@.remove(*key),
            removed == old(self)@.contains_key(*key),
    {
        self.services.remove(key).is_some()
    }

    /// All cells, by key.
    pub fn services(&self) -> (all: &BTreeMap<K, ServiceCell<V>>)
        ensures
            all@ == self@,
    {
        &self.services
    }

    /// The cell under `key`, if there is one.
    pub fn get_service(&self, key: &K) -> (found: Option<&ServiceCell<V>>)
        requires
            self.wf(),
        ensures
            found == (if self@.contains_key(*key) {
                Some(&self@[*key])
            } else {
                None
            }),
    {
        self.services.get(key)
    }

    /// Waits for shared access to the service under `key`, whatever its type.
    pub fn read_service_base<'a>(&'a self, key: &'a K) -> (r: Result<ReadGuard<'a, V>, Error<'a, K>>)
        requires
            self.wf(),
        ensures
            access_outcome(self@, key, None, true, r),
    {
        read_base(self, key)
    }

    /// Waits for exclusive access to the service under `key`, whatever its
    /// type.
    pub fn write_service_base<'a>(&'a self, key: &'a K) -> (r: Result<
        WriteGuard<'a, V>,
        Error<'a, K>,
    >)
        requires
            self.wf(),
        ensures
            access_outcome(self@, key, None, true, r),
    {
        write_base(self, key)
    }

    /// Waits for shared access to every service, in ascending order of the
    /// keys. The first lock that fails ends the call, and the guards taken
    /// until then are released.
    pub fn read_all<'a>(&'a self) -> (r: Result<Vec<(&'a K, ReadGuard<'a, V>)>, Error<'a, K>>)
        requires
            self.wf(),
        ensures
            bulk_outcome(self@, r),
    {
        let mut guards: Vec<(&'a K, ReadGuard<'a, V>)> = Vec::new();
        let entries = self.services.iter();
        let ghost items = entries.remaining();
        proof {
            lemma_entries_ascend(items);
        }
        for entry in it: entries
            invariant
                it.seq() == items,
                forall|i: int|
                    0 <= i < items.len() ==> self@.contains_key(*(#[trigger] items[i]).0),
                guards.len() == it.index(),
                forall|i: int|
                    0 <= i < guards.len() ==> *(#[trigger] guards[i]).0 == *items[i].0
                        && guards[i].1.cell() == *items[i].1,
        {
            let key: &'a K = entry.0;
            match entry.1.read() {
                Ok(guard) => {
                    guards.push((key, guard));
                },
                Err(failure) => {
                    return Err(Error::from_failure(key, failure));
                },
            }
        }
        proof {
            lemma_bulk_complete(self@, items, guards);
        }
        Ok(guards)
    }

    /// Waits for exclusive access to every service, in ascending order of
    /// the keys. The first lock that fails ends the call, and the guards
    /// taken until then are released.
    pub fn write_all<'a>(&'a self) -> (r: Result<Vec<(&'a K, WriteGuard<'a, V>)>, Error<'a, K>>)
        requires
            self.wf(),
        ensures
            bulk_outcome(self@, r),
    {
        let mut guards: Vec<(&'a K, WriteGuard<'a, V>)> = Vec::new();
        let entries = self.services.iter();
        let ghost items = entries.remaining();
        proof {
            lemma_entries_ascend(items);
        }
        for entry in it: entries
            invariant
                it.seq() == items,
                forall|i: int|
                    0 <= i < items.len() ==> self@.contains_key(*(#[trigger] items[i]).0),
                guards.len() == it.index(),
                forall|i: int|
                    0 <= i < guards.len() ==> *(#[trigger] guards[i]).0 == *items[i].0
                        && guards[i].1.cell() == *items[i].1,
        {
            let key: &'a K = entry.0;
            match entry.1.write() {
                Ok(guard) => {
                    guards.push((key, guard));
                },
                Err(failure) => {
                    return Err(Error::from_failure(key, failure));
                },
            }
        }
        proof {
            lemma_bulk_complete(self@, items, guards);
        }
        Ok(guards)
    }
}

/// Builds an [`Ioc`] step by step.
#[verifier::reject_recursive_types(V)]
pub struct IocBuilder<K, V> {
    ioc: Ioc<K, V>,
}

impl<K: Key, V> View for IocBuilder<K, V> {
    type V = Map<K, ServiceCell<V>>;

    closed spec fn view(&self) -> Map<K, ServiceCell<V>> {
        self.ioc@
    }
}

impl<K: Key, V> IocBuilder<K, V> {
    /// The keys obey their laws.
    pub open spec fn wf(&self) -> bool {
        key_laws::<K>()
    }

    pub fn new() -> (builder: Self)
        requires
            key_laws::<K>(),
        ensures
            builder.wf(),
            builder@ == Map::<K, ServiceCell<V>>::empty(),
    {
        IocBuilder { ioc: Ioc::new() }
    }

    /// The container that was built.
    pub fn build(self) -> (ioc: Ioc<K, V>)
        requires
            self.wf(),
        ensures
            ioc.wf(),
            ioc@ == self@,
    {
        self.ioc
    }

    /// Puts `svc` under `key`, as [`Ioc::register_service`] does, and hands
    /// the builder back for the next step.
    pub fn register_service(&mut self, key: K, svc: ServiceHandle<V>) -> (next: &mut Self)
        requires
            old(self).wf(),
        ensures
            next.wf(),
            next@ == old(self)@.insert(key, next@[key]),
            next@[key].spec_tag() == svc.tag,
            *final(self) == *final(next),
    {
        self.ioc.register_service(key, svc);
        self
    }

    /// Puts `value` under the key of `svc`, with the tag of `svc`.
    pub fn register(&mut self, svc: Service<K>, value: V) -> (next: &mut Self)
        requires
            old(self).wf(),
        ensures
            next.wf(),
            next@ == old(self)@.insert(svc.key, next@[svc.key]),
            next@[svc.key].spec_tag() == svc.tag,
            *final(self) == *final(next),
    {
        self.register_service(svc.key, ServiceHandle::new(svc.tag, value))
    }
}

impl<K: Key, V> Default for Ioc<K, V> {
    /// The empty container.
    fn default() -> (ioc: Self)
        ensures
            ioc@ == Map::<K, ServiceCell<V>>::empty(),
    {
        Ioc { services: BTreeMap::new() }
    }
}

impl<K: Key, V> Default for IocBuilder<K, V> {
    /// The builder of the empty container.
    fn default() -> (builder: Self)
        ensures
            builder@ == Map::<K, ServiceCell<V>>::empty(),
    {
        IocBuilder { ioc: Ioc::default() }
    }
}

} // verus!
