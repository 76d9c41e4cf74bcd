//! The pipeline: stages that are searched front to back, with typed access
//! and composite requests.
use vstd::prelude::*;
use std::sync::Mutex;
use crate::access::Services;
use crate::access::read_typed;
use crate::access::write_typed;
use crate::errors::Error;
use crate::factory::Create;
use crate::factory::CreationError;
use crate::factory::Factory;
use crate::factory::acquire;
use crate::factory::acquire_outcome;
use crate::factory::creation_outcome;
use crate::factory::finish;
use crate::guards::ReadGuard;
use crate::guards::WriteGuard;
use crate::guards::access_outcome;
use crate::ioc::Ioc;
use crate::methods::Method;
use crate::methods::Resolved;
use crate::methods::method_outcome;
use crate::reflect::Key;
use crate::reflect::Service;
use crate::reflect::key_laws;
use crate::service::ServiceCell;
use crate::service::ServiceHandle;
use crate::staged_ioc::StageBuilder;
use crate::staged_ioc::StagedIoc;
use crate::staged_ioc::StagedIocBuilder;
use crate::stage_model::has_stage;
use crate::stage_model::holds;
use crate::stage_model::merged;
use crate::stage_model::stage_index;
use crate::stage_model::staged_bulk_outcome;
use crate::stage_model::stages_wf;
use crate::stage_model::with_service;
use crate::stage_model::with_stage_near;
use crate::stage_model::without_service;
use crate::stage_model::without_stage;
use crate::sync::mutex_lock;
use crate::sync::mutex_new;

verus! {

/// An ordered list of stages, and one coordinating lock that every composite
/// request takes before it touches a service of any stage.
///
/// A search for a key goes through the stages front to back and ends at the
/// first stage that holds the key.
#[verifier::reject_recursive_types(V)]
pub struct Pipeline<K, V> {
    stages: StagedIoc<K, V>,
    abba_prevention: Mutex<()>,
}

impl<K: Key, V> View for Pipeline<K, V> {
    type V = Seq<(K, Map<K, ServiceCell<V>>)>;

    closed spec fn view(&self) -> Seq<(K, Map<K, ServiceCell<V>>)> {
        self.stages@
    }
}

impl<K: Key, V> Services<K, V> for Pipeline<K, V> {
    open spec fn cells(&self) -> Map<K, ServiceCell<V>> {
        merged(self@)
    }

    open spec fn valid(&self) -> bool {
        self.wf()
    }

    fn find<'a>(&'a self, key: &K) -> (found: Option<&'a ServiceCell<V>>) {
        self.get_service(key)
    }
}

impl<K: Key, V> Pipeline<K, V> {
    /// The keys obey their laws, no two stages share a key, and no service
    /// key occurs in two stages.
    pub open spec fn wf(&self) -> bool {
        key_laws::<K>() && stages_wf(self@)
    }

    pub fn new() -> (pipeline: Self)
        requires
            key_laws::<K>(),
        ensures
            pipeline.wf(),
            pipeline@ == Seq::<(K, Map<K, ServiceCell<V>>)>::empty(),
    {
        Pipeline { stages: StagedIoc::new(), abba_prevention: mutex_new() }
    }

    /// A pipeline over the given stages.
    pub fn from_stages(stages: StagedIoc<K, V>) -> (pipeline: Self)
        requires
            stages.wf(),
        ensures
            pipeline.wf(),
            pipeline@ == stages@,
    {
        Pipeline { stages, abba_prevention: mutex_new() }
    }

    /// Puts a new, empty stage with the key `stage` at position `pos`. A
    /// stage that had this key before is taken out first, with all its
    /// services; `pos` counts in the list that is left.
    pub fn register_stage(&mut self, pos: usize, stage: K)
        requires
            old(self).wf(),
            pos <= without_stage(old(self)@, stage).len(),
        ensures
            final(self).wf(),
            final(self)@ == without_stage(old(self)@, stage).insert(
                pos as int,
                (stage, Map::<K, ServiceCell<V>>::empty()),
            ),
    {
        self.stages.register_stage(pos, stage);
    }

    /// Takes out the stage with the key `stage`, with all its services, and
    /// says whether there was one.
    pub fn unregister_stage(&mut self, stage: &K) -> (removed: bool)
        requires
            old(self).wf(),
        ensures
            final(self).wf(),
            final(self)@ == without_stage(old(self)@, *stage),
            removed == has_stage(old(self)@, *stage),
    {
        self.stages.unregister_stage(stage)
    }

    /// Puts `svc` under `key` in the stage with the key `stage`, in a fresh
    /// cell. The key is first taken out of whatever stage held it, so that
    /// it never occurs in two stages.
    pub fn register_service(&mut self, stage: &K, key: K, svc: ServiceHandle<V>)
        requires
            old(self).wf(),
            has_stage(old(self)@, *stage),
        ensures
            final(self).wf(),
            final(self)@ == with_service(
                old(self)@,
                stage_index(old(self)@, *stage),
                key,
                merged(final(self)@)[key],
            ),
            merged(final(self)@).contains_key(key),
            merged(final(self)@)[key].spec_tag() == svc.tag,
    {
        self.stages.register_service(stage, key, svc);
    }

    /// Takes the service under `key` out of the stage that holds it, and
    /// says whether one did.
    pub fn unregister_service(&mut self, key: &K) -> (removed: bool)
        requires
            old(self).wf(),
        ensures
            final(self).wf(),
            final(self)@ == without_service(old(self)@, *key),
            removed == holds(old(self)@, *key),
    {
        self.stages.unregister_service(key)
    }

    /// The stages, front to back.
    pub fn stages(&self) -> (all: &Vec<(K, Ioc<K, V>)>)
        ensures
            all@.len() == self@.len(),
            forall|i: int|
                0 <= i < all@.len() ==> (#[trigger] all@[i]).0 == self@[i].0 && all@[i].1@
                    == self@[i].1,
    {
        self.stages.stages()
    }

    /// The container of the stage with the key `stage`, if there is one.
    pub fn get_stage(&self, stage: &K) -> (found: Option<&Ioc<K, V>>)
        requires
            self.wf(),
        ensures
            match found {
                Some(ioc) => has_stage(self@, *stage) && ioc@ == self@[stage_index(self@, *stage)].1
                    && ioc.wf(),
                None => !has_stage(self@, *stage),
            },
    {
        self.stages.get_stage(stage)
    }

    /// The cell under `key` in the first stage that holds the key, if one
    /// does.
    pub fn get_service(&self, key: &K) -> (found: Option<&ServiceCell<V>>)
        requires
            self.wf(),
        ensures
            found == (if merged(self@).contains_key(*key) {
                Some(&merged(self@)[*key])
            } else {
                None
            }),
    {
        self.stages.get_service(key)
    }

    /// Makes an object: takes the factory that `req` names, answers the
    /// request made for it, and hands the answer to the factory.
    ///
    /// The coordinating lock is held while the factory and its services are
    /// taken, and released before the factory runs. The first step that
    /// fails ends the call and releases what was taken.
    pub fn create<'a, Obj>(&'a self, req: &'a Create<K>) -> (r: Result<
        Obj,
        CreationError<'a, K, V::Error>,
    >) where V: Factory<V, Obj>
        requires
            self.wf(),
        ensures
            creation_outcome(merged(self@), req, r),
    {
        let acquired = self.acquire_for(req);
        finish(self, req, acquired)
    }

    fn acquire_for<'a, CE>(&'a self, req: &'a Create<K>) -> (r: Result<
        (ReadGuard<'a, V>, Resolved<'a, V>),
        CreationError<'a, K, CE>,
    >)
        requires
            self.wf(),
        ensures
            acquire_outcome(merged(self@), req, r),
    {
        let _held = mutex_lock(&self.abba_prevention);
        acquire(self, req)
    }

    /// Answers a composite request as one unit, waiting for each lock.
    ///
    /// The coordinating lock of the pipeline is held from before the first
    /// service is touched until the last guard is taken or the request has
    /// failed. It stands for the stages too: none of them takes a
    /// coordinating lock of its own.
    pub fn invoke<'a>(&'a self, method: &'a Method<K>) -> (r: Result<Resolved<'a, V>, Error<'a, K>>)
        requires
            self.wf(),
        ensures
            method_outcome(merged(self@), method, true, Seq::empty(), r),
    {
        let _held = mutex_lock(&self.abba_prevention);
        method.resolve_unprotected(self)
    }

    /// Shared access to the service that `svc` describes, in the first stage
    /// that holds its key.
    pub fn read<'a>(&'a self, svc: &'a Service<K>) -> (r: Result<ReadGuard<'a, V>, Error<'a, K>>)
        requires
            self.wf(),
        ensures
            access_outcome(merged(self@), &svc.key, Some(svc.tag), true, r),
    {
        read_typed(self, &svc.key, svc.tag, true)
    }

    /// Exclusive access to the service that `svc` describes, in the first
    /// stage that holds its key.
    pub fn write<'a>(&'a self, svc: &'a Service<K>) -> (r: Result<WriteGuard<'a, V>, Error<'a, K>>)
        requires
            self.wf(),
        ensures
            access_outcome(merged(self@), &svc.key, Some(svc.tag), true, r),
    {
        write_typed(self, &svc.key, svc.tag, true)
    }

    /// Answers a composite request as one unit without waiting for any
    /// service. Only the coordinating lock is waited for.
    pub fn try_invoke<'a>(&'a self, method: &'a Method<K>) -> (r: Result<
        Resolved<'a, V>,
        Error<'a, K>,
    >)
        requires
            self.wf(),
        ensures
            method_outcome(merged(self@), method, false, Seq::empty(), r),
    {
        let _held = mutex_lock(&self.abba_prevention);
        method.try_resolve_unprotected(self)
    }

    /// Shared access, without waiting, to the service that `svc` describes.
    pub fn try_read<'a>(&'a self, svc: &'a Service<K>) -> (r: Result<ReadGuard<'a, V>, Error<'a, K>>)
        requires
            self.wf(),
        ensures
            access_outcome(merged(self@), &svc.key, Some(svc.tag), false, r),
    {
        read_typed(self, &svc.key, svc.tag, false)
    }

    /// Exclusive access, without waiting, to the service that `svc`
    /// describes.
    pub fn try_write<'a>(&'a self, svc: &'a Service<K>) -> (r: Result<
        WriteGuard<'a, V>,
        Error<'a, K>,
    >)
        requires
            self.wf(),
        ensures
            access_outcome(merged(self@), &svc.key, Some(svc.tag), false, r),
    {
        write_typed(self, &svc.key, svc.tag, false)
    }

    /// Waits for shared access to every service: stage by stage, and within
    /// a stage in ascending order of the keys.
    pub fn read_all<'a>(&'a self) -> (r: Result<Vec<(&'a K, ReadGuard<'a, V>)>, Error<'a, K>>)
        requires
            self.wf(),
        ensures
            staged_bulk_outcome(self@, r),
    {
        self.stages.read_all()
    }

    /// Waits for exclusive access to every service: stage by stage, and
    /// within a stage in ascending order of the keys.
    pub fn write_all<'a>(&'a self) -> (r: Result<Vec<(&'a K, WriteGuard<'a, V>)>, Error<'a, K>>)
        requires
            self.wf(),
        ensures
            staged_bulk_outcome(self@, r),
    {
        self.stages.write_all()
    }
}

/// Builds a [`Pipeline`] step by step.
#[verifier::reject_recursive_types(V)]
pub struct PipelineBuilder<K, V> {
    ioc: StagedIocBuilder<K, V>,
}

impl<K: Key, V> View for PipelineBuilder<K, V> {
    type V = Seq<(K, Map<K, ServiceCell<V>>)>;

    closed spec fn view(&self) -> Seq<(K, Map<K, ServiceCell<V>>)> {
        self.ioc@
    }
}

impl<K: Key, V> PipelineBuilder<K, V> {
    /// The keys obey their laws, no two stages share a key, and no service
    /// key occurs in two stages.
    pub open spec fn wf(&self) -> bool {
        key_laws::<K>() && stages_wf(self@)
    }

    pub fn new() -> (builder: Self)
        requires
            key_laws::<K>(),
        ensures
            builder.wf(),
            builder@ == Seq::<(K, Map<K, ServiceCell<V>>)>::empty(),
    {
        PipelineBuilder { ioc: StagedIocBuilder::new() }
    }

    /// Whether there is a stage with the key `stage`.
    pub fn has_stage(&self, stage: &K) -> (has: bool)
        requires
            self.wf(),
        ensures
            has == has_stage(self@, *stage),
    {
        self.ioc.has_stage(stage)
    }

    /// A builder for the services of the stage with the key `stage`.
    pub fn stage<'a>(&'a mut self, stage: &'a K) -> (at: StageBuilder<'a, K, V>)
        requires
            old(self).wf(),
            has_stage(old(self)@, *stage),
        ensures
            at.stage == stage,
            at.ioc@ == old(self)@,
            at.ioc.wf(),
            final(self)@ == final(at.ioc)@,
    {
        self.ioc.at_stage(stage)
    }

    /// Puts a new, empty stage in front of all others. A stage that had the
    /// key before is taken out first.
    pub fn register_stage_at_begin(&mut self, stage: K)
        requires
            old(self).wf(),
        ensures
            final(self).wf(),
            final(self)@ == without_stage(old(self)@, stage).insert(
                0,
                (stage, Map::<K, ServiceCell<V>>::empty()),
            ),
    {
        self.ioc.register_stage_at_begin(stage);
    }

    /// Puts a new, empty stage behind all others. A stage that had the key
    /// before is taken out first.
    pub fn register_stage_at_end(&mut self, stage: K)
        requires
            old(self).wf(),
        ensures
            final(self).wf(),
            final(self)@ == without_stage(old(self)@, stage).push(
                (stage, Map::<K, ServiceCell<V>>::empty()),
            ),
    {
        self.ioc.register_stage_at_end(stage);
    }

    /// Puts a new, empty stage right before the stage with the key `near`.
    /// A stage that had the key `stage` before is taken out first. Where
    /// `near` is that stage itself, it comes back in its own place.
    pub fn register_stage_before(&mut self, near: &K, stage: K)
        requires
            old(self).wf(),
            has_stage(old(self)@, *near),
        ensures
            final(self).wf(),
            final(self)@ == with_stage_near(old(self)@, *near, stage, false),
    {
        self.ioc.register_stage_before(near, stage);
    }

    /// Puts a new, empty stage right behind the stage with the key `near`.
    /// A stage that had the key `stage` before is taken out first. Where
    /// `near` is that stage itself, it comes back in its own place.
    pub fn register_stage_after(&mut self, near: &K, stage: K)
        requires
            old(self).wf(),
            has_stage(old(self)@, *near),
        ensures
            final(self).wf(),
            final(self)@ == with_stage_near(old(self)@, *near, stage, true),
    {
        self.ioc.register_stage_after(near, stage);
    }

    /// The pipeline that was built.
    pub fn build(self) -> (pipeline: Pipeline<K, V>)
        requires
            self.wf(),
        ensures
            pipeline.wf(),
            pipeline@ == self@,
    {
        Pipeline::from_stages(self.ioc.build())
    }
}

impl<K: Key, V> Default for Pipeline<K, V> {
    /// The pipeline without stages.
    fn default() -> (pipeline: Self)
        ensures
            pipeline@ == Seq::<(K, Map<K, ServiceCell<V>>)>::empty(),
    {
        Pipeline { stages: StagedIoc::default(), abba_prevention: mutex_new() }
    }
}

impl<K: Key, V> Default for PipelineBuilder<K, V> {
    /// The builder of the pipeline without stages.
    fn default() -> (builder: Self)
        ensures
            builder@ == Seq::<(K, Map<K, ServiceCell<V>>)>::empty(),
    {
        PipelineBuilder { ioc: StagedIocBuilder::default() }
    }
}

} // verus!
