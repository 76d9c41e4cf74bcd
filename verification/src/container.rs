//! The container: services by key, with typed access and composite requests.
use vstd::prelude::*;
use std::collections::BTreeMap;
use std::sync::Mutex;
use crate::errors::Error;
use crate::access::Services;
use crate::access::read_base;
use crate::access::read_typed;
use crate::access::try_read_base;
use crate::access::try_write_base;
use crate::access::write_base;
use crate::access::write_typed;
use crate::factory::Create;
use crate::factory::CreationError;
use crate::factory::Factory;
use crate::factory::acquire;
use crate::factory::acquire_outcome;
use crate::factory::creation_outcome;
use crate::factory::finish;
use crate::guards::ReadGuard;
use crate::guards::WriteGuard;
use crate::guards::access_outcome;
use crate::ioc::Ioc;
use crate::methods::Method;
use crate::methods::Resolved;
use crate::methods::method_outcome;
use crate::reflect::Key;
use crate::reflect::Service;
use crate::reflect::key_laws;
use crate::service::ServiceCell;
use crate::service::ServiceHandle;
use crate::service::TypeTag;
use crate::sync::mutex_lock;
use crate::sync::mutex_new;

verus! {

/// Services by key, each behind its own lock, and one coordinating lock that
/// every composite request takes before it touches a service.
///
/// Two composite requests may name the same keys in opposite orders. Since
/// each takes the coordinating lock first and keeps it until all of its
/// guards are taken, one of them has all its guards before the other asks
/// for its first. A call for a single key takes no coordinating lock.
#[verifier::reject_recursive_types(V)]
pub struct Container<K, V> {
    services: Ioc<K, V>,
    deadlock_protection: Mutex<()>,
}

impl<K: Key, V> View for Container<K, V> {
    type V = Map<K, ServiceCell<V>>;

    closed spec fn view(&self) -> Map<K, ServiceCell<V>> {
        self.services@
    }
}

impl<K: Key, V> Services<K, V> for Container<K, V> {
    open spec fn cells(&self) -> Map<K, ServiceCell<V>> {
        self@
    }

    open spec fn valid(&self) -> bool {
        self.wf()
    }

    fn find<'a>(&'a self, key: &K) -> (found: Option<&'a ServiceCell<V>>) {
        self.get_service(key)
    }
}

impl<K: Key, V> Container<K, V> {
    /// The keys obey their laws.
    pub open spec fn wf(&self) -> bool {
        key_laws::<K>()
    }

    pub fn new() -> (cont: Self)
        requires
            key_laws::<K>(),
        ensures
            cont.wf(),
            cont@ == Map::<K, ServiceCell<V>>::empty(),
    {
        Container { services: Ioc::new(), deadlock_protection: mutex_new() }
    }

    /// Puts `svc` under `key`, in a fresh cell, and hands the container back
    /// for the next step. A service that was there before is dropped. No
    /// other key is touched.
    pub fn register_service(&mut self, key: K, svc: ServiceHandle<V>) -> (next: &mut Self)
        requires
            old(self).wf(),
        ensures
            next.wf(),
            next@ == old(self)@.insert(key, next@[key]),
            next@[key].spec_tag() == svc.tag,
            *final(self) == *final(next),
    {
        self.services.register_service(key, svc);
        self
    }

    /// Puts `value` under the key of `svc`, with the tag of `svc`.
    pub fn register(&mut self, svc: Service<K>, value: V) -> (next: &mut Self)
        requires
            old(self).wf(),
        ensures
            next.wf(),
            next@ == old(self)@.insert(svc.key, next@[svc.key]),
            next@[svc.key].spec_tag() == svc.tag,
            *final(self) == *final(next),
    {
        self.register_service(svc.key, ServiceHandle::new(svc.tag, value))
    }

    /// Puts the default value of `V` under the key of `svc`, with the tag of
    /// `svc`.
    pub fn register_default(&mut self, svc: Service<K>) -> (next: &mut Self) where V: Default
        requires
            old(self).wf(),
        ensures
            next.wf(),
            next@ == old(self)@.insert(svc.key, next@[svc.key]),
            next@[svc.key].spec_tag() == svc.tag,
            *final(self) == *final(next),
    {
        self.register(svc, V::default())
    }

    /// Removes the service under `key`, and says whether there was one.
    pub fn unregister_service(&mut self, key: &K) -> (removed: bool)
        requires
            old(self).wf(),
        ensures
            final(self).wf(),
            final(self)@ == old(self)@.remove(*key),
            removed == old(self)@.contains_key(*key),
    {
        self.services.unregister_service(key)
    }

    /// All cells, by key.
    pub fn services(&self) -> (all: &BTreeMap<K, ServiceCell<V>>)
        ensures
            all@ == self@,
    {
        self.services.services()
    }

    /// The cell under `key`, if there is one.
    pub fn get_service(&self, key: &K) -> (found: Option<&ServiceCell<V>>)
        requires
            self.wf(),
        ensures
            found == (if self@.contains_key(*key) {
                Some(&self@[*key])
            } else {
                None
            }),
    {
        self.services.get_service(key)
    }

    /// Waits for shared access to the service under `key`, whatever its type.
    pub fn read_service_base<'a>(&'a self, key: &'a K) -> (r: Result<ReadGuard<'a, V>, Error<'a, K>>)
        requires
            self.wf(),
        ensures
            access_outcome(self@, key, None, true, r),
    {
        read_base(self, key)
    }

    /// Waits for exclusive access to the service under `key`, whatever its
    /// type.
    pub fn write_service_base<'a>(&'a self, key: &'a K) -> (r: Result<
        WriteGuard<'a, V>,
        Error<'a, K>,
    >)
        requires
            self.wf(),
        ensures
            access_outcome(self@, key, None, true, r),
    {
        write_base(self, key)
    }

    /// Waits for shared access to the service under `key`, and checks that
    /// it was registered as `expected`. On a mismatch the lock is released
    /// before the call returns.
    pub fn read_service<'a>(&'a self, key: &'a K, expected: TypeTag) -> (r: Result<
        ReadGuard<'a, V>,
        Error<'a, K>,
    >)
        requires
            self.wf(),
        ensures
            access_outcome(self@, key, Some(expected), true, r),
    {
        read_typed(self, key, expected, true)
    }

    /// Waits for exclusive access to the service under `key`, and checks
    /// that it was registered as `expected`. On a mismatch the lock is
    /// released before the call returns.
    pub fn write_service<'a>(&'a self, key: &'a K, expected: TypeTag) -> (r: Result<
        WriteGuard<'a, V>,
        Error<'a, K>,
    >)
        requires
            self.wf(),
        ensures
            access_outcome(self@, key, Some(expected), true, r),
    {
        write_typed(self, key, expected, true)
    }

    /// Shared access to the service that `svc` describes.
    pub fn read<'a>(&'a self, svc: &'a Service<K>) -> (r: Result<ReadGuard<'a, V>, Error<'a, K>>)
        requires
            self.wf(),
        ensures
            access_outcome(self@, &svc.key, Some(svc.tag), true, r),
    {
        self.read_service(&svc.key, svc.tag)
    }

    /// Exclusive access to the service that `svc` describes.
    pub fn write<'a>(&'a self, svc: &'a Service<K>) -> (r: Result<WriteGuard<'a, V>, Error<'a, K>>)
        requires
            self.wf(),
        ensures
            access_outcome(self@, &svc.key, Some(svc.tag), true, r),
    {
        self.write_service(&svc.key, svc.tag)
    }

    /// Asks for shared access to the service under `key` without waiting,
    /// whatever its type.
    pub fn try_read_service_base<'a>(&'a self, key: &'a K) -> (r: Result<
        ReadGuard<'a, V>,
        Error<'a, K>,
    >)
        requires
            self.wf(),
        ensures
            access_outcome(self@, key, None, false, r),
    {
        try_read_base(self, key)
    }

    /// Asks for exclusive access to the service under `key` without waiting,
    /// whatever its type.
    pub fn try_write_service_base<'a>(&'a self, key: &'a K) -> (r: Result<
        WriteGuard<'a, V>,
        Error<'a, K>,
    >)
        requires
            self.wf(),
        ensures
            access_outcome(self@, key, None, false, r),
    {
        try_write_base(self, key)
    }

    /// Asks for shared access to the service under `key` without waiting,
    /// and checks that it was registered as `expected`.
    pub fn try_read_service<'a>(&'a self, key: &'a K, expected: TypeTag) -> (r: Result<
        ReadGuard<'a, V>,
        Error<'a, K>,
    >)
        requires
            self.wf(),
        ensures
            access_outcome(self@, key, Some(expected), false, r),
    {
        read_typed(self, key, expected, false)
    }

    /// Asks for exclusive access to the service under `key` without waiting,
    /// and checks that it was registered as `expected`.
    pub fn try_write_service<'a>(&'a self, key: &'a K, expected: TypeTag) -> (r: Result<
        WriteGuard<'a, V>,
        Error<'a, K>,
    >)
        requires
            self.wf(),
        ensures
            access_outcome(self@, key, Some(expected), false, r),
    {
        write_typed(self, key, expected, false)
    }

    /// Shared access, without waiting, to the service that `svc` describes.
    pub fn try_read<'a>(&'a self, svc: &'a Service<K>) -> (r: Result<ReadGuard<'a, V>, Error<'a, K>>)
        requires
            self.wf(),
        ensures
            access_outcome(self@, &svc.key, Some(svc.tag), false, r),
    {
        self.try_read_service(&svc.key, svc.tag)
    }

    /// Exclusive access, without waiting, to the service that `svc`
    /// describes.
    pub fn try_write<'a>(&'a self, svc: &'a Service<K>) -> (r: Result<
        WriteGuard<'a, V>,
        Error<'a, K>,
    >)
        requires
            self.wf(),
        ensures
            access_outcome(self@, &svc.key, Some(svc.tag), false, r),
    {
        self.try_write_service(&svc.key, svc.tag)
    }

    /// Takes all services in ascending order of the keys, for reading.
    pub fn read_all<'a>(&'a self) -> (r: Result<Vec<(&'a K, ReadGuard<'a, V>)>, Error<'a, K>>)
        requires
            self.wf(),
        ensures
            crate::guards::bulk_outcome(self@, r),
    {
        self.services.read_all()
    }

    /// Takes all services in ascending order of the keys, for writing.
    pub fn write_all<'a>(&'a self) -> (r: Result<Vec<(&'a K, WriteGuard<'a, V>)>, Error<'a, K>>)
        requires
            self.wf(),
        ensures
            crate::guards::bulk_outcome(self@, r),
    {
        self.services.write_all()
    }

    /// Makes an object: takes the factory that `req` names, answers the
    /// request made for it, and hands the answer to the factory.
    ///
    /// The coordinating lock is held while the factory and its services are
    /// taken, and released before the factory runs. The first step that
    /// fails ends the call and releases what was taken.
    pub fn create<'a, Obj>(&'a self, req: &'a Create<K>) -> (r: Result<
        Obj,
        CreationError<'a, K, V::Error>,
    >) where V: Factory<V, Obj>
        requires
            self.wf(),
        ensures
            creation_outcome(self@, req, r),
    {
        let acquired = self.acquire_for(req);
        finish(self, req, acquired)
    }

    fn acquire_for<'a, CE>(&'a self, req: &'a Create<K>) -> (r: Result<
        (ReadGuard<'a, V>, Resolved<'a, V>),
        CreationError<'a, K, CE>,
    >)
        requires
            self.wf(),
        ensures
            acquire_outcome(self@, req, r),
    {
        let _held = mutex_lock(&self.deadlock_protection);
        acquire(self, req)
    }

    /// Answers a composite request as one unit, waiting for each lock.
    ///
    /// The coordinating lock is held from before the first service is
    /// touched until the last guard is taken or the request has failed.
    pub fn resolve<'a>(&'a self, method: &'a Method<K>) -> (r: Result<Resolved<'a, V>, Error<'a, K>>)
        requires
            self.wf(),
        ensures
            method_outcome(self@, method, true, Seq::empty(), r),
    {
        let _held = mutex_lock(&self.deadlock_protection);
        method.resolve_unprotected(self)
    }

    /// Answers a composite request as one unit without waiting for any
    /// service. Only the coordinating lock is waited for.
    pub fn try_resolve<'a>(&'a self, method: &'a Method<K>) -> (r: Result<
        Resolved<'a, V>,
        Error<'a, K>,
    >)
        requires
            self.wf(),
        ensures
            method_outcome(self@, method, false, Seq::empty(), r),
    {
        let _held = mutex_lock(&self.deadlock_protection);
        method.try_resolve_unprotected(self)
    }
}

/// Builds a [`Container`] step by step.
#[verifier::reject_recursive_types(V)]
pub struct ContainerBuilder<K, V> {
    cont: Container<K, V>,
}

impl<K: Key, V> View for ContainerBuilder<K, V> {
    type V = Map<K, ServiceCell<V>>;

    closed spec fn view(&self) -> Map<K, ServiceCell<V>> {
        self.cont@
    }
}

impl<K: Key, V> ContainerBuilder<K, V> {
    /// The keys obey their laws.
    pub open spec fn wf(&self) -> bool {
        key_laws::<K>()
    }

    pub fn new() -> (builder: Self)
        requires
            key_laws::<K>(),
        ensures
            builder.wf(),
            builder@ == Map::<K, ServiceCell<V>>::empty(),
    {
        ContainerBuilder { cont: Container::new() }
    }

    /// Puts `svc` under `key`, as [`Container::register_service`] does.
    pub fn register_service(&mut self, key: K, svc: ServiceHandle<V>) -> (next: &mut Self)
        requires
            old(self).wf(),
        ensures
            next.wf(),
            next@ == old(self)@.insert(key, next@[key]),
            next@[key].spec_tag() == svc.tag,
            *final(self) == *final(next),
    {
        let _ = self.cont.register_service(key, svc);
        self
    }

    /// Puts `value` under the key of `svc`, with the tag of `svc`.
    pub fn register(&mut self, svc: Service<K>, value: V) -> (next: &mut Self)
        requires
            old(self).wf(),
        ensures
            next.wf(),
            next@ == old(self)@.insert(svc.key, next@[svc.key]),
            next@[svc.key].spec_tag() == svc.tag,
            *final(self) == *final(next),
    {
        let _ = self.cont.register(svc, value);
        self
    }

    /// Puts the default value of `V` under the key of `svc`, with the tag of
    /// `svc`.
    pub fn register_default(&mut self, svc: Service<K>) -> (next: &mut Self) where V: Default
        requires
            old(self).wf(),
        ensures
            next.wf(),
            next@ == old(self)@.insert(svc.key, next@[svc.key]),
            next@[svc.key].spec_tag() == svc.tag,
            *final(self) == *final(next),
    {
        let _ = self.cont.register_default(svc);
        self
    }

    /// The container that was built.
    pub fn build(self) -> (cont: Container<K, V>)
        requires
            self.wf(),
        ensures
            cont.wf(),
            cont@ == self@,
    {
        self.cont
    }
}

impl<K: Key, V> Default for Container<K, V> {
    /// The empty container.
    fn default() -> (cont: Self)
        ensures
            cont@ == Map::<K, ServiceCell<V>>::empty(),
    {
        Container { services: Ioc::default(), deadlock_protection: mutex_new() }
    }
}

impl<K: Key, V> Default for ContainerBuilder<K, V> {
    /// The builder of the empty container.
    fn default() -> (builder: Self)
        ensures
            builder@ == Map::<K, ServiceCell<V>>::empty(),
    {
        ContainerBuilder { cont: Container::default() }
    }
}

} // verus!
