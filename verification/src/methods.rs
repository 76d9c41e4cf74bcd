//! Composite requests: several services asked for as one unit.
use vstd::prelude::*;
use crate::access::Services;
use crate::access::read_typed;
use crate::access::write_typed;
use crate::errors::Error;
use crate::guards::ReadGuard;
use crate::guards::WriteGuard;
use crate::guards::access_outcome;
use crate::reflect::Key;
use crate::reflect::key_laws;
use vstd::laws_eq::obeys_concrete_eq;
use crate::reflect::Service;
use crate::service::ServiceCell;
use crate::service::TypeTag;

verus! {

/// Asks for shared access to the service under `key`, as the type `tag`.
#[derive(Debug)]
pub struct Read<K> {
    pub key: K,
    pub tag: TypeTag,
}

/// Asks for exclusive access to the service under `key`, as the type `tag`.
#[derive(Debug)]
pub struct Write<K> {
    pub key: K,
    pub tag: TypeTag,
}

impl<K: Key> Read<K> {
    /// The request for the service that `svc` describes.
    pub fn new(svc: Service<K>) -> (req: Self)
        ensures
            req.key == svc.key,
            req.tag == svc.tag,
    {
        Read { key: svc.key, tag: svc.tag }
    }

    /// Carries the request out on `services`, waiting for the lock: finds
    /// the service, takes its lock for reading, then checks its type.
    pub fn invoke<'a, V, S: Services<K, V>>(&'a self, services: &'a S) -> (r: Result<
        ReadGuard<'a, V>,
        Error<'a, K>,
    >)
        requires
            services.valid(),
        ensures
            access_outcome(services.cells(), &self.key, Some(self.tag), true, r),
    {
        read_typed(services, &self.key, self.tag, true)
    }

    /// Carries the request out on `services` without waiting for the lock.
    pub fn try_invoke<'a, V, S: Services<K, V>>(&'a self, services: &'a S) -> (r: Result<
        ReadGuard<'a, V>,
        Error<'a, K>,
    >)
        requires
            services.valid(),
        ensures
            access_outcome(services.cells(), &self.key, Some(self.tag), false, r),
    {
        read_typed(services, &self.key, self.tag, false)
    }
}

impl<K: Key> Write<K> {
    /// The request for the service that `svc` describes.
    pub fn new(svc: Service<K>) -> (req: Self)
        ensures
            req.key == svc.key,
            req.tag == svc.tag,
    {
        Write { key: svc.key, tag: svc.tag }
    }

    /// Carries the request out on `services`, waiting for the lock: finds
    /// the service, takes its lock for writing, then checks its type.
    pub fn invoke<'a, V, S: Services<K, V>>(&'a self, services: &'a S) -> (r: Result<
        WriteGuard<'a, V>,
        Error<'a, K>,
    >)
        requires
            services.valid(),
        ensures
            access_outcome(services.cells(), &self.key, Some(self.tag), true, r),
    {
        write_typed(services, &self.key, self.tag, true)
    }

    /// Carries the request out on `services` without waiting for the lock.
    pub fn try_invoke<'a, V, S: Services<K, V>>(&'a self, services: &'a S) -> (r: Result<
        WriteGuard<'a, V>,
        Error<'a, K>,
    >)
        requires
            services.valid(),
        ensures
            access_outcome(services.cells(), &self.key, Some(self.tag), false, r),
    {
        write_typed(services, &self.key, self.tag, false)
    }
}

/// A request for one service, or an ordered list of requests that are
/// answered together or not at all.
#[derive(Debug)]
pub enum Method<K> {
    Read(Read<K>),
    Write(Write<K>),
    Tuple(Vec<Method<K>>),
}

/// The answer to a [`Method`], of the same shape: a guard for each single
/// request, a list for each list.
#[verifier::reject_recursive_types(V)]
pub enum Resolved<'a, V> {
    Read(ReadGuard<'a, V>),
    Write(WriteGuard<'a, V>),
    Tuple(Vec<Resolved<'a, V>>),
}

/// Whether every single request in `m` names a key of `cells` and asks for
/// the type that the key was registered with. Only such a request can be
/// answered.
pub open spec fn answerable<K, V>(cells: Map<K, ServiceCell<V>>, m: &Method<K>) -> bool
    decreases m,
{
    match m {
        Method::Read(req) => cells.contains_key(req.key) && cells[req.key].spec_tag() == req.tag,
        Method::Write(req) => cells.contains_key(req.key) && cells[req.key].spec_tag() == req.tag,
        Method::Tuple(parts) => forall|i: int|
            0 <= i < parts.len() ==> answerable(cells, #[trigger] &parts[i]),
    }
}

/// The keys that the single requests of `m` name, from left to right.
pub open spec fn asked<K>(m: &Method<K>) -> Seq<K>
    decreases m, 0int,
{
    match m {
        Method::Read(req) => seq![req.key],
        Method::Write(req) => seq![req.key],
        Method::Tuple(parts) => asked_upto(parts@, parts@.len() as int),
    }
}

/// The keys that the single requests in the first `upto` of `parts` name,
/// from left to right.
pub open spec fn asked_upto<K>(parts: Seq<Method<K>>, upto: int) -> Seq<K>
    decreases parts, upto,
{
    if upto <= 0 || upto > parts.len() {
        Seq::empty()
    } else {
        asked_upto(parts, upto - 1) + asked(&parts[upto - 1])
    }
}

/// Whether `r` is an answer that `m` may get on `cells`, asked by someone
/// who holds guards for the keys `held` already.
///
/// A single request is answered as one access is; it waits for its lock only
/// if `waits` and its key is not among `held`. A list is answered by a list
/// of the same length whose parts answer the requests in order, or by the
/// position of the first request that failed together with that request's
/// own error: every part before it could be answered. A part is asked while
/// the guards of the parts before it are held.
pub open spec fn method_outcome<'a, K, V>(
    cells: Map<K, ServiceCell<V>>,
    m: &'a Method<K>,
    waits: bool,
    held: Seq<K>,
    r: Result<Resolved<'a, V>, Error<'a, K>>,
) -> bool
    decreases m,
{
    match m {
        Method::Read(req) => match r {
            Ok(Resolved::Read(guard)) => access_outcome(
                cells,
                &req.key,
                Some(req.tag),
                waits && !held.contains(req.key),
                Ok::<ReadGuard<'a, V>, Error<'a, K>>(guard),
            ),
            Ok(_) => false,
            Err(err) => access_outcome(
                cells,
                &req.key,
                Some(req.tag),
                waits && !held.contains(req.key),
                Err::<ReadGuard<'a, V>, Error<'a, K>>(err),
            ),
        },
        Method::Write(req) => match r {
            Ok(Resolved::Write(guard)) => access_outcome(
                cells,
                &req.key,
                Some(req.tag),
                waits && !held.contains(req.key),
                Ok::<WriteGuard<'a, V>, Error<'a, K>>(guard),
            ),
            Ok(_) => false,
            Err(err) => access_outcome(
                cells,
                &req.key,
                Some(req.tag),
                waits && !held.contains(req.key),
                Err::<WriteGuard<'a, V>, Error<'a, K>>(err),
            ),
        },
        Method::Tuple(parts) => match r {
            Ok(Resolved::Tuple(answers)) => {
                &&& answers.len() == parts.len()
                &&& forall|i: int|
                    0 <= i < parts.len() ==> method_outcome(
                        cells,
                        #[trigger] &parts[i],
                        waits,
                        held + asked_upto(parts@, i),
                        Ok(answers[i]),
                    )
            },
            Ok(_) => false,
            Err(Error::CompositeError { index, cause }) => {
                &&& index < parts.len()
                &&& forall|j: int| 0 <= j < index ==> answerable(cells, #[trigger] &parts[j])
                &&& method_outcome(
                    cells,
                    &parts[index as int],
                    waits,
                    held + asked_upto(parts@, index as int),
                    Err(*cause),
                )
            },
            Err(_) => false,
        },
    }
}

/// Whether `key` is one of `taken`.
fn is_taken<K: Key>(taken: &Vec<&K>, key: &K) -> (found: bool)
    requires
        key_laws::<K>(),
    ensures
        found == taken@.unref().contains(*key),
{
    let mut i: usize = 0;
    while i < taken.len()
        invariant
            key_laws::<K>(),
            i <= taken.len(),
            forall|j: int| 0 <= j < i ==> *taken@[j] != *key,
        decreases taken.len() - i,
    {
        proof {
            reveal(obeys_concrete_eq);
        }
        if *taken[i] == *key {
            assert(taken@.unref()[i as int] == *key);
            return true;
        }
        i += 1;
    }
    assert forall|j: int| 0 <= j < taken@.unref().len() implies taken@.unref()[j] != *key by {
        assert(*taken@[j] != *key);
    }
    false
}

impl<K: Key> Method<K> {
    /// Answers the request on `ioc`, waiting for each lock in turn, without
    /// taking the coordinating lock of `ioc`.
    ///
    /// The parts of a list are answered from left to right. The first part
    /// that fails ends the call; the guards taken until then are released. A
    /// request never waits for itself: a key that it has asked for before is
    /// asked for without waiting, and answered `WouldBlock` where the two
    /// accesses exclude each other.
    pub fn resolve_unprotected<'a, V, S: Services<K, V>>(&'a self, ioc: &'a S) -> (r: Result<
        Resolved<'a, V>,
        Error<'a, K>,
    >)
        requires
            ioc.valid(),
            key_laws::<K>(),
        ensures
            method_outcome(ioc.cells(), self, true, Seq::empty(), r),
    {
        let mut taken: Vec<&'a K> = Vec::new();
        assert(taken@.unref() =~= Seq::<K>::empty());
        self.resolve_after(ioc, true, &mut taken)
    }

    /// Answers the request on `ioc` without ever waiting for a lock, and
    /// without taking the coordinating lock of `ioc`.
    pub fn try_resolve_unprotected<'a, V, S: Services<K, V>>(&'a self, ioc: &'a S) -> (r: Result<
        Resolved<'a, V>,
        Error<'a, K>,
    >)
        requires
            ioc.valid(),
            key_laws::<K>(),
        ensures
            method_outcome(ioc.cells(), self, false, Seq::empty(), r),
    {
        let mut taken: Vec<&'a K> = Vec::new();
        assert(taken@.unref() =~= Seq::<K>::empty());
        self.resolve_after(ioc, false, &mut taken)
    }

    /// Answers the request on `ioc` for a caller who holds guards for the
    /// keys in `taken` already, and notes in `taken` the keys that the
    /// request took guards for.
    pub fn resolve_after<'a, V, S: Services<K, V>>(
        &'a self,
        ioc: &'a S,
        waits: bool,
        taken: &mut Vec<&'a K>,
    ) -> (r: Result<Resolved<'a, V>, Error<'a, K>>)
        requires
            ioc.valid(),
            key_laws::<K>(),
        ensures
            method_outcome(ioc.cells(), self, waits, old(taken)@.unref(), r),
            r is Ok ==> final(taken)@.unref() == old(taken)@.unref() + asked(self),
        decreases self,
    {
        match self {
            Method::Read(req) => {
                let access = if waits && !is_taken(taken, &req.key) {
                    req.invoke(ioc)
                } else {
                    req.try_invoke(ioc)
                };
                match access {
                    Ok(guard) => {
                        taken.push(&req.key);
                        assert(taken@.unref() =~= old(taken)@.unref() + seq![req.key]);
                        Ok(Resolved::Read(guard))
                    },
                    Err(err) => Err(err),
                }
            },
            Method::Write(req) => {
                let access = if waits && !is_taken(taken, &req.key) {
                    req.invoke(ioc)
                } else {
                    req.try_invoke(ioc)
                };
                match access {
                    Ok(guard) => {
                        taken.push(&req.key);
                        assert(taken@.unref() =~= old(taken)@.unref() + seq![req.key]);
                        Ok(Resolved::Write(guard))
                    },
                    Err(err) => Err(err),
                }
            },
            Method::Tuple(parts) => {
                let ghost held = taken@.unref();
                let mut answers: Vec<Resolved<'a, V>> = Vec::new();
                let mut i: usize = 0;
                assert(held + asked_upto(parts@, 0) =~= held);
                while i < parts.len()
                    invariant
                        ioc.valid(),
                        key_laws::<K>(),
                        *self == Method::Tuple(*parts),
                        i <= parts.len(),
                        answers.len() == i,
                        held == old(taken)@.unref(),
                        taken@.unref() == held + asked_upto(parts@, i as int),
                        forall|j: int|
                            0 <= j < i ==> method_outcome(
                                ioc.cells(),
                                #[trigger] &parts[j],
                                waits,
                                held + asked_upto(parts@, j),
                                Ok(answers[j]),
                            ),
                    decreases parts.len() - i,
                {
                    proof {
                        assert(decreases_to!(*self => self->Tuple_0));
                        assert(decreases_to!(self->Tuple_0 => (self->Tuple_0)@));
                        assert(decreases_to!((self->Tuple_0)@ => (self->Tuple_0)@[i as int]));
                    }
                    match parts[i].resolve_after(ioc, waits, taken) {
                        Ok(answer) => {
                            answers.push(answer);
                            assert(taken@.unref() =~= held + asked_upto(parts@, i + 1));
                        },
                        Err(cause) => {
                            proof {
                                assert forall|j: int| 0 <= j < i implies answerable(
                                    ioc.cells(),
                                    #[trigger] &parts[j],
                                ) by {
                                    lemma_answered_is_answerable(
                                        ioc.cells(),
                                        &parts[j],
                                        waits,
                                        held + asked_upto(parts@, j),
                                        answers[j],
                                    );
                                }
                            }
                            return Err(Error::CompositeError { index: i, cause: Box::new(cause) });
                        },
                    }
                    i += 1;
                }
                Ok(Resolved::Tuple(answers))
            },
        }
    }
}

/// A request that got an answer was answerable: each of its keys is
/// registered, with the type that was asked for.
pub proof fn lemma_answered_is_answerable<'a, K, V>(
    cells: Map<K, ServiceCell<V>>,
    m: &'a Method<K>,
    waits: bool,
    held: Seq<K>,
    answer: Resolved<'a, V>,
)
    requires
        method_outcome(cells, m, waits, held, Ok(answer)),
    ensures
        answerable(cells, m),
    decreases m,
{
    match m {
        Method::Read(req) => {},
        Method::Write(req) => {},
        Method::Tuple(parts) => {
            let answers = answer->Tuple_0;
            assert forall|i: int| 0 <= i < parts.len() implies answerable(
                cells,
                #[trigger] &parts[i],
            ) by {
                assert(method_outcome(
                    cells,
                    &parts[i],
                    waits,
                    held + asked_upto(parts@, i),
                    Ok(answers[i]),
                ));
                lemma_answered_is_answerable(
                    cells,
                    &parts[i],
                    waits,
                    held + asked_upto(parts@, i),
                    answers[i],
                );
            }
        },
    }
}

/// A composite request with a part that cannot be answered fails as a
/// whole: where one key is missing or of another type, no guard comes back.
pub proof fn lemma_unanswerable_fails<'a, K, V>(
    cells: Map<K, ServiceCell<V>>,
    m: &'a Method<K>,
    waits: bool,
    held: Seq<K>,
    r: Result<Resolved<'a, V>, Error<'a, K>>,
)
    requires
        !answerable(cells, m),
        method_outcome(cells, m, waits, held, r),
    ensures
        r is Err,
{
    if r is Ok {
        lemma_answered_is_answerable(cells, m, waits, held, r->Ok_0);
    }
}

/// The empty list of requests is always answered, by the empty list.
pub proof fn lemma_nothing_asked<'a, K, V>(
    cells: Map<K, ServiceCell<V>>,
    m: &'a Method<K>,
    waits: bool,
    held: Seq<K>,
    r: Result<Resolved<'a, V>, Error<'a, K>>,
)
    requires
        *m is Tuple,
        m->Tuple_0@.len() == 0,
        method_outcome(cells, m, waits, held, r),
    ensures
        r is Ok,
        r->Ok_0 is Tuple,
        r->Ok_0->Tuple_0@.len() == 0,
{
}

} // verus!
