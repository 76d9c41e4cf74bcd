//! Stages: an ordered list of containers that is searched front to back.
use vstd::prelude::*;
use vstd::laws_eq::obeys_concrete_eq;
use crate::access::Services;
use crate::access::read_base;
use crate::access::write_base;
use crate::errors::Error;
use crate::guards::ReadGuard;
use crate::guards::WriteGuard;
use crate::guards::access_outcome;
use crate::ioc::Ioc;
use crate::reflect::Key;
use crate::reflect::Service;
use crate::reflect::key_laws;
use crate::service::ServiceCell;
use crate::service::ServiceHandle;
use crate::stage_model::has_stage;
use crate::stage_model::holds;
use crate::stage_model::lemma_first_holder;
use crate::stage_model::lemma_other_stage_stays;
use crate::stage_model::lemma_taken_all;
use crate::stage_model::lemma_taken_next;
use crate::stage_model::lemma_with_empty_stage;
use crate::stage_model::lemma_without_service_wf;
use crate::stage_model::lemma_without_stage;
use crate::stage_model::merged;
use crate::stage_model::stage_index;
use crate::stage_model::staged_bulk_outcome;
use crate::stage_model::stages_wf;
use crate::stage_model::taken_upto;
use crate::stage_model::with_service;
use crate::stage_model::with_stage_near;
use crate::stage_model::without_service;
use crate::stage_model::without_stage;

verus! {

/// An ordered list of stages, each a key and a container of its own.
#[verifier::reject_recursive_types(V)]
pub struct StagedIoc<K, V> {
    stages: Vec<(K, Ioc<K, V>)>,
}

impl<K: Key, V> View for StagedIoc<K, V> {
    type V = Seq<(K, Map<K, ServiceCell<V>>)>;

    closed spec fn view(&self) -> Seq<(K, Map<K, ServiceCell<V>>)> {
        Seq::new(self.stages@.len(), |i: int| (self.stages@[i].0, self.stages@[i].1@))
    }
}

impl<K: Key, V> Services<K, V> for StagedIoc<K, V> {
    open spec fn cells(&self) -> Map<K, ServiceCell<V>> {
        merged(self@)
    }

    open spec fn valid(&self) -> bool {
        self.wf()
    }

    fn find<'a>(&'a self, key: &K) -> (found: Option<&'a ServiceCell<V>>) {
        self.get_service(key)
    }
}

impl<K: Key, V> StagedIoc<K, V> {
    /// The keys obey their laws, no two stages share a key, and no service
    /// key occurs in two stages.
    pub open spec fn wf(&self) -> bool {
        key_laws::<K>() && stages_wf(self@)
    }

    pub fn new() -> (ioc: Self)
        requires
            key_laws::<K>(),
        ensures
            ioc.wf(),
            ioc@ == Seq::<(K, Map<K, ServiceCell<V>>)>::empty(),
    {
        let ioc = StagedIoc { stages: Vec::new() };
        assert(ioc@ =~= Seq::<(K, Map<K, ServiceCell<V>>)>::empty());
        ioc
    }

    /// The position of the stage with the key `stage`, if there is one.
    pub fn position(&self, stage: &K) -> (at: Option<usize>)
        requires
            self.wf(),
        ensures
            match at {
                Some(i) => has_stage(self@, *stage) && i == stage_index(self@, *stage) && i
                    < self@.len(),
                None => !has_stage(self@, *stage),
            },
    {
        let mut i: usize = 0;
        while i < self.stages.len()
            invariant
                self.wf(),
                i <= self.stages@.len(),
                self.stages@.len() == self@.len(),
                forall|j: int| 0 <= j < i ==> (#[trigger] self@[j]).0 != *stage,
            decreases self.stages.len() - i,
        {
            proof {
                reveal(obeys_concrete_eq);
            }
            if self.stages[i].0 == *stage {
                proof {
                    assert(self@[i as int].0 == *stage);
                    let c = stage_index(self@, *stage);
                    assert(self@[c].0 == *stage);
                    if c < i {
                        assert(self@[c].0 != self@[i as int].0);
                    }
                    if i < c {
                        assert(self@[i as int].0 != self@[c].0);
                    }
                }
                return Some(i);
            }
            i += 1;
        }
        None
    }

    /// Takes out the stage with the key `stage`, with all its services, and
    /// says whether there was one.
    pub fn unregister_stage(&mut self, stage: &K) -> (removed: bool)
        requires
            old(self).wf(),
        ensures
            final(self).wf(),
            final(self)@ == without_stage(old(self)@, *stage),
            removed == has_stage(old(self)@, *stage),
    {
        match self.position(stage) {
            Some(i) => {
                let _ = self.stages.remove(i);
                proof {
                    assert(self@ =~= old(self)@.remove(i as int));
                    lemma_without_stage(old(self)@, *stage);
                }
                true
            },
            None => false,
        }
    }

    /// Puts a new, empty stage with the key `stage` at position `pos`. A
    /// stage that had this key before is taken out first, with all its
    /// services; `pos` counts in the list that is left.
    pub fn register_stage(&mut self, pos: usize, stage: K)
        requires
            old(self).wf(),
            pos <= without_stage(old(self)@, stage).len(),
        ensures
            final(self).wf(),
            final(self)@ == without_stage(old(self)@, stage).insert(
                pos as int,
                (stage, Map::<K, ServiceCell<V>>::empty()),
            ),
    {
        let _ = self.unregister_stage(&stage);
        let ghost rest = self@;
        proof {
            lemma_without_stage(old(self)@, stage);
        }
        self.stages.insert(pos, (stage, Ioc::new()));
        proof {
            assert(self@ =~= rest.insert(pos as int, (stage, Map::<K, ServiceCell<V>>::empty())));
            lemma_with_empty_stage(rest, pos as int, stage);
        }
    }

    /// The stages, front to back.
    pub fn stages(&self) -> (all: &Vec<(K, Ioc<K, V>)>)
        ensures
            all@.len() == self@.len(),
            forall|i: int|
                0 <= i < all@.len() ==> (#[trigger] all@[i]).0 == self@[i].0 && all@[i].1@
                    == self@[i].1,
    {
        &self.stages
    }

    /// The container of the stage with the key `stage`, if there is one.
    pub fn get_stage(&self, stage: &K) -> (found: Option<&Ioc<K, V>>)
        requires
            self.wf(),
        ensures
            match found {
                Some(ioc) => has_stage(self@, *stage) && ioc@ == self@[stage_index(self@, *stage)].1
                    && ioc.wf(),
                None => !has_stage(self@, *stage),
            },
    {
        match self.position(stage) {
            Some(i) => Some(&self.stages[i].1),
            None => None,
        }
    }

    /// The cell under `key` in the first stage that holds the key, if one
    /// does.
    pub fn get_service(&self, key: &K) -> (found: Option<&ServiceCell<V>>)
        requires
            self.wf(),
        ensures
            found == (if merged(self@).contains_key(*key) {
                Some(&merged(self@)[*key])
            } else {
                None
            }),
    {
        let mut i: usize = 0;
        while i < self.stages.len()
            invariant
                self.wf(),
                i <= self.stages@.len(),
                self.stages@.len() == self@.len(),
                forall|j: int| 0 <= j < i ==> !(#[trigger] self@[j]).1.contains_key(*key),
            decreases self.stages.len() - i,
        {
            match self.stages[i].1.get_service(key) {
                Some(cell) => {
                    proof {
                        assert(self@[i as int].1.contains_key(*key));
                        lemma_first_holder(self@, *key, i as int);
                    }
                    return Some(cell);
                },
                None => {
                    assert(!self@[i as int].1.contains_key(*key));
                },
            }
            i += 1;
        }
        None
    }

    /// Takes the service under `key` out of the stage that holds it, and
    /// says whether one did.
    pub fn unregister_service(&mut self, key: &K) -> (removed: bool)
        requires
            old(self).wf(),
        ensures
            final(self).wf(),
            final(self)@ == without_service(old(self)@, *key),
            removed == holds(old(self)@, *key),
    {
        let mut i: usize = 0;
        while i < self.stages.len()
            invariant
                self@ == old(self)@,
                self.wf(),
                i <= self.stages@.len(),
                self.stages@.len() == self@.len(),
                forall|j: int| 0 <= j < i ==> !(#[trigger] self@[j]).1.contains_key(*key),
            decreases self.stages.len() - i,
        {
            if self.stages[i].1.unregister_service(key) {
                proof {
                    let before = old(self)@;
                    assert(before[i as int].1.contains_key(*key));
                    assert forall|j: int| 0 <= j < before.len() implies #[trigger] self@[j]
                        == without_service(before, *key)[j] by {
                        if j < i {
                            assert(!before[j].1.contains_key(*key));
                            assert(before[j].1.remove(*key) =~= before[j].1);
                        } else if j > i {
                            assert(!(before[i as int].1.contains_key(*key)
                                && before[j].1.contains_key(*key)));
                            assert(before[j].1.remove(*key) =~= before[j].1);
                        }
                    }
                    assert(self@ =~= without_service(before, *key));
                    lemma_without_service_wf(before, *key);
                }
                return true;
            }
            proof {
                let before = old(self)@;
                assert(!before[i as int].1.contains_key(*key));
                assert(before[i as int].1.remove(*key) =~= before[i as int].1);
                assert(self@ =~= before);
            }
            i += 1;
        }
        proof {
            let before = old(self)@;
            assert forall|j: int| 0 <= j < before.len() implies #[trigger] self@[j]
                == without_service(before, *key)[j] by {
                assert(!before[j].1.contains_key(*key));
                assert(before[j].1.remove(*key) =~= before[j].1);
            }
            assert(self@ =~= without_service(before, *key));
        }
        false
    }

    /// Puts `svc` under `key` in the stage with the key `stage`, in a fresh
    /// cell. The key is first taken out of whatever stage held it, so that
    /// it never occurs in two stages.
    pub fn register_service(&mut self, stage: &K, key: K, svc: ServiceHandle<V>)
        requires
            old(self).wf(),
            has_stage(old(self)@, *stage),
        ensures
            final(self).wf(),
            final(self)@ == with_service(
                old(self)@,
                stage_index(old(self)@, *stage),
                key,
                merged(final(self)@)[key],
            ),
            merged(final(self)@).contains_key(key),
            merged(final(self)@)[key].spec_tag() == svc.tag,
    {
        let ghost before = self@;
        let ghost at = stage_index(before, *stage);
        let _ = self.unregister_service(&key);
        let ghost mid = self@;
        proof {
            assert(mid[at].0 == *stage);
            assert(has_stage(mid, *stage));
            let c = stage_index(mid, *stage);
            if c < at {
                assert(mid[c].0 != mid[at].0);
            }
            if at < c {
                assert(mid[at].0 != mid[c].0);
            }
        }
        match self.position(stage) {
            Some(i) => {
                self.stages[i].1.register_service(key, svc);
                proof {
                    let now = self@;
                    let cell = now[at].1[key];
                    assert forall|j: int| 0 <= j < now.len() implies #[trigger] now[j]
                        == with_service(before, at, key, cell)[j] by {
                        if j == at {
                            assert(now[j].1 =~= before[j].1.insert(key, cell));
                        } else {
                            assert(now[j] == mid[j]);
                        }
                    }
                    assert(now =~= with_service(before, at, key, cell));
                    assert forall|a: int, b: int| 0 <= a < b < now.len() implies (
                    #[trigger] now[a]).0 != (#[trigger] now[b]).0 by {
                        assert(before[a].0 != before[b].0);
                    }
                    assert forall|a: int, b: int, k: K| 0 <= a < b < now.len() implies !(
                    #[trigger] now[a].1.contains_key(k) && #[trigger] now[b].1.contains_key(k)) by {
                        assert(!(before[a].1.contains_key(k) && before[b].1.contains_key(k)));
                    }
                    lemma_first_holder(now, key, at);
                }
            },
            None => {},
        }
    }

    /// Waits for shared access to the service under `key`, whatever its type.
    pub fn read_service_base<'a>(&'a self, key: &'a K) -> (r: Result<ReadGuard<'a, V>, Error<'a, K>>)
        requires
            self.wf(),
        ensures
            access_outcome(merged(self@), key, None, true, r),
    {
        read_base(self, key)
    }

    /// Waits for exclusive access to the service under `key`, whatever its
    /// type.
    pub fn write_service_base<'a>(&'a self, key: &'a K) -> (r: Result<
        WriteGuard<'a, V>,
        Error<'a, K>,
    >)
        requires
            self.wf(),
        ensures
            access_outcome(merged(self@), key, None, true, r),
    {
        write_base(self, key)
    }

    /// Waits for shared access to every service: stage by stage, and within a
    /// stage in ascending order of the keys. The first lock that fails ends
    /// the call, and the guards taken until then are released.
    pub fn read_all<'a>(&'a self) -> (r: Result<Vec<(&'a K, ReadGuard<'a, V>)>, Error<'a, K>>)
        requires
            self.wf(),
        ensures
            staged_bulk_outcome(self@, r),
    {
        let mut guards: Vec<(&'a K, ReadGuard<'a, V>)> = Vec::new();
        let mut s: usize = 0;
        while s < self.stages.len()
            invariant
                self.wf(),
                s <= self.stages@.len(),
                self.stages@.len() == self@.len(),
                taken_upto(self@, s as int, guards@),
            decreases self.stages.len() - s,
        {
            match self.stages[s].1.read_all() {
                Ok(mut part) => {
                    proof {
                        lemma_taken_next(self@, s as int, guards@, part);
                    }
                    guards.append(&mut part);
                },
                Err(err) => {
                    proof {
                        let key = *err->Poisoned_key;
                        assert(self@[s as int].1.contains_key(key));
                        assert(holds(self@, key));
                    }
                    return Err(err);
                },
            }
            s += 1;
        }
        proof {
            lemma_taken_all(self@, guards@);
        }
        Ok(guards)
    }

    /// Waits for exclusive access to every service: stage by stage, and within a
    /// stage in ascending order of the keys. The first lock that fails ends
    /// the call, and the guards taken until then are released.
    pub fn write_all<'a>(&'a self) -> (r: Result<Vec<(&'a K, WriteGuard<'a, V>)>, Error<'a, K>>)
        requires
            self.wf(),
        ensures
            staged_bulk_outcome(self@, r),
    {
        let mut guards: Vec<(&'a K, WriteGuard<'a, V>)> = Vec::new();
        let mut s: usize = 0;
        while s < self.stages.len()
            invariant
                self.wf(),
                s <= self.stages@.len(),
                self.stages@.len() == self@.len(),
                taken_upto(self@, s as int, guards@),
            decreases self.stages.len() - s,
        {
            match self.stages[s].1.write_all() {
                Ok(mut part) => {
                    proof {
                        lemma_taken_next(self@, s as int, guards@, part);
                    }
                    guards.append(&mut part);
                },
                Err(err) => {
                    proof {
                        let key = *err->Poisoned_key;
                        assert(self@[s as int].1.contains_key(key));
                        assert(holds(self@, key));
                    }
                    return Err(err);
                },
            }
            s += 1;
        }
        proof {
            lemma_taken_all(self@, guards@);
        }
        Ok(guards)
    }
}

/// Builds a [`StagedIoc`] step by step.
#[verifier::reject_recursive_types(V)]
pub struct StagedIocBuilder<K, V> {
    ioc: StagedIoc<K, V>,
}

/// Registers services in one stage of a [`StagedIoc`] that is being built.
#[verifier::reject_recursive_types(V)]
pub struct StageBuilder<'a, K, V> {
    pub ioc: &'a mut StagedIoc<K, V>,
    pub stage: &'a K,
}

impl<'a, K: Key, V> StageBuilder<'a, K, V> {
    /// Puts `svc` under `key` in the stage of this builder, as
    /// [`StagedIoc::register_service`] does, and hands the builder back for
    /// the next step.
    pub fn register_service(&mut self, key: K, svc: ServiceHandle<V>) -> (next: &mut Self)
        requires
            old(self).ioc.wf(),
            has_stage(old(self).ioc@, *old(self).stage),
        ensures
            next.stage == old(self).stage,
            next.ioc.wf(),
            has_stage(next.ioc@, *next.stage),
            next.ioc@ == with_service(
                old(self).ioc@,
                stage_index(old(self).ioc@, *old(self).stage),
                key,
                merged(next.ioc@)[key],
            ),
            merged(next.ioc@).contains_key(key),
            merged(next.ioc@)[key].spec_tag() == svc.tag,
            *final(next.ioc) == *final(old(self).ioc),
            *final(self) == *final(next),
    {
        let ghost at = stage_index(self.ioc@, *self.stage);
        self.ioc.register_service(self.stage, key, svc);
        proof {
            assert(self.ioc@[at].0 == *self.stage);
        }
        self
    }

    /// Puts `value` under the key of `svc`, with the tag of `svc`, and hands
    /// the builder back for the next step.
    pub fn register(&mut self, svc: Service<K>, value: V) -> (next: &mut Self)
        requires
            old(self).ioc.wf(),
            has_stage(old(self).ioc@, *old(self).stage),
        ensures
            next.stage == old(self).stage,
            next.ioc.wf(),
            has_stage(next.ioc@, *next.stage),
            next.ioc@ == with_service(
                old(self).ioc@,
                stage_index(old(self).ioc@, *old(self).stage),
                svc.key,
                merged(next.ioc@)[svc.key],
            ),
            merged(next.ioc@).contains_key(svc.key),
            merged(next.ioc@)[svc.key].spec_tag() == svc.tag,
            *final(next.ioc) == *final(old(self).ioc),
            *final(self) == *final(next),
    {
        self.register_service(svc.key, ServiceHandle::new(svc.tag, value))
    }
}

impl<K: Key, V> View for StagedIocBuilder<K, V> {
    type V = Seq<(K, Map<K, ServiceCell<V>>)>;

    closed spec fn view(&self) -> Seq<(K, Map<K, ServiceCell<V>>)> {
        self.ioc@
    }
}

impl<K: Key, V> StagedIocBuilder<K, V> {
    /// The keys obey their laws, no two stages share a key, and no service
    /// key occurs in two stages.
    pub open spec fn wf(&self) -> bool {
        key_laws::<K>() && stages_wf(self@)
    }

    pub fn new() -> (builder: Self)
        requires
            key_laws::<K>(),
        ensures
            builder.wf(),
            builder@ == Seq::<(K, Map<K, ServiceCell<V>>)>::empty(),
    {
        StagedIocBuilder { ioc: StagedIoc::new() }
    }

    /// Whether there is a stage with the key `stage`.
    pub fn has_stage(&self, stage: &K) -> (has: bool)
        requires
            self.wf(),
        ensures
            has == has_stage(self@, *stage),
    {
        self.ioc.position(stage).is_some()
    }

    /// A builder for the services of the stage with the key `stage`.
    pub fn at_stage<'a>(&'a mut self, stage: &'a K) -> (at: StageBuilder<'a, K, V>)
        requires
            old(self).wf(),
            has_stage(old(self)@, *stage),
        ensures
            at.stage == stage,
            at.ioc@ == old(self)@,
            at.ioc.wf(),
            final(self)@ == final(at.ioc)@,
    {
        StageBuilder { ioc: &mut self.ioc, stage }
    }

    /// Puts a new, empty stage in front of all others. A stage that had the
    /// key before is taken out first.
    pub fn register_stage_at_begin(&mut self, stage: K)
        requires
            old(self).wf(),
        ensures
            final(self).wf(),
            final(self)@ == without_stage(old(self)@, stage).insert(
                0,
                (stage, Map::<K, ServiceCell<V>>::empty()),
            ),
    {
        self.ioc.register_stage(0, stage);
    }

    /// Puts a new, empty stage behind all others. A stage that had the key
    /// before is taken out first.
    pub fn register_stage_at_end(&mut self, stage: K)
        requires
            old(self).wf(),
        ensures
            final(self).wf(),
            final(self)@ == without_stage(old(self)@, stage).push(
                (stage, Map::<K, ServiceCell<V>>::empty()),
            ),
    {
        let _ = self.ioc.unregister_stage(&stage);
        proof {
            lemma_without_stage(old(self)@, stage);
        }
        let len = self.ioc.stages().len();
        self.ioc.register_stage(len, stage);
        assert(self@ =~= without_stage(old(self)@, stage).push(
            (stage, Map::<K, ServiceCell<V>>::empty()),
        ));
    }

    /// Puts a new, empty stage right before the stage with the key `near`.
    /// A stage that had the key `stage` before is taken out first. Where
    /// `near` is that stage itself, it comes back in its own place.
    pub fn register_stage_before(&mut self, near: &K, stage: K)
        requires
            old(self).wf(),
            has_stage(old(self)@, *near),
        ensures
            final(self).wf(),
            final(self)@ == with_stage_near(old(self)@, *near, stage, false),
    {
        self.register_stage_near(near, stage, false);
    }

    /// Puts a new, empty stage right behind the stage with the key `near`.
    /// A stage that had the key `stage` before is taken out first. Where
    /// `near` is that stage itself, it comes back in its own place.
    pub fn register_stage_after(&mut self, near: &K, stage: K)
        requires
            old(self).wf(),
            has_stage(old(self)@, *near),
        ensures
            final(self).wf(),
            final(self)@ == with_stage_near(old(self)@, *near, stage, true),
    {
        self.register_stage_near(near, stage, true);
    }

    fn register_stage_near(&mut self, near: &K, stage: K, behind: bool)
        requires
            old(self).wf(),
            has_stage(old(self)@, *near),
        ensures
            final(self).wf(),
            final(self)@ == with_stage_near(old(self)@, *near, stage, behind),
    {
        proof {
            reveal(obeys_concrete_eq);
        }
        if *near == stage {
            match self.ioc.position(near) {
                Some(pos) => {
                    let ghost before = self@;
                    self.ioc.register_stage(pos, stage);
                    assert(self@ =~= before.update(
                        pos as int,
                        (stage, Map::<K, ServiceCell<V>>::empty()),
                    ));
                },
                None => {},
            }
        } else {
            let _ = self.ioc.unregister_stage(&stage);
            proof {
                lemma_without_stage(old(self)@, stage);
                lemma_other_stage_stays(old(self)@, *near, stage);
            }
            match self.ioc.position(near) {
                Some(pos) => {
                    let len = self.ioc.stages().len();
                    assert(pos < len);
                    let at = if behind {
                        pos + 1
                    } else {
                        pos
                    };
                    self.ioc.register_stage(at, stage);
                },
                None => {},
            }
        }
    }

    /// The stages that were built.
    pub fn build(self) -> (ioc: StagedIoc<K, V>)
        requires
            self.wf(),
        ensures
            ioc.wf(),
            ioc@ == self@,
    {
        self.ioc
    }
}

impl<K: Key, V> Default for StagedIoc<K, V> {
    /// No stages.
    fn default() -> (ioc: Self)
        ensures
            ioc@ == Seq::<(K, Map<K, ServiceCell<V>>)>::empty(),
    {
        let ioc = StagedIoc { stages: Vec::new() };
        assert(ioc@ =~= Seq::<(K, Map<K, ServiceCell<V>>)>::empty());
        ioc
    }
}

impl<K: Key, V> Default for StagedIocBuilder<K, V> {
    /// The builder of no stages.
    fn default() -> (builder: Self)
        ensures
            builder@ == Seq::<(K, Map<K, ServiceCell<V>>)>::empty(),
    {
        StagedIocBuilder { ioc: StagedIoc::default() }
    }
}

} // verus!
