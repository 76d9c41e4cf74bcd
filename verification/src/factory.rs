//! Factories: services that make objects from other services.
use vstd::prelude::*;
use crate::access::Services;
use crate::access::read_typed;
use crate::errors::Error;
use crate::guards::ReadGuard;
use crate::guards::access_outcome;
use crate::methods::Method;
use crate::methods::Resolved;
use crate::methods::answerable;
use crate::methods::lemma_answered_is_answerable;
use crate::methods::method_outcome;
use crate::reflect::Key;
use crate::reflect::key_laws;
use crate::reflect::Service;
use crate::service::ServiceCell;

verus! {

/// A service that makes objects of the type `Obj` from the services it
/// asked for.
pub trait Factory<V, Obj> {
    /// What the factory fails with.
    type Error;

    /// Makes an object from `args`, the answer to the request that was
    /// declared for this factory.
    fn create<'a>(&self, args: Resolved<'a, V>) -> Result<Obj, Self::Error>;
}

/// Asks for an object: names the factory, and the services that the factory
/// is to be given.
#[derive(Debug)]
pub struct Create<K> {
    pub factory: Service<K>,
    pub args: Method<K>,
}

/// Why no object was made.
#[derive(Debug)]
pub enum CreationError<'a, K, CE> {
    /// The factory itself could not be had.
    LockError(Error<'a, K>),
    /// The factory under `key` could be had, but not the services it asked
    /// for.
    DependencyError { key: &'a K, cause: Box<Error<'a, K>> },
    /// The factory under `key` got what it asked for, and failed.
    CreationError { key: &'a K, error: CE },
}

/// Whether `cells` holds the factory of `req`, registered as the type that
/// `req` names.
pub open spec fn has_factory<K, V>(cells: Map<K, ServiceCell<V>>, req: &Create<K>) -> bool {
    cells.contains_key(req.factory.key) && cells[req.factory.key].spec_tag() == req.factory.tag
}

/// Whether `r` is an answer that `req` may get on `cells`.
///
/// Whether a lock is granted and whether the factory succeeds is not decided
/// here; everything else is. An object is made only where the factory is
/// registered as the type asked for and all it asks for can be answered. The
/// first step that fails decides the error: the factory itself, then its
/// arguments, then the making. Each of the two later errors names the key
/// of the factory.
pub open spec fn creation_outcome<'a, K, V, Obj, CE>(
    cells: Map<K, ServiceCell<V>>,
    req: &'a Create<K>,
    r: Result<Obj, CreationError<'a, K, CE>>,
) -> bool {
    match r {
        Ok(_) => has_factory(cells, req) && answerable(cells, &req.args),
        Err(CreationError::LockError(err)) => access_outcome(
            cells,
            &req.factory.key,
            Some(req.factory.tag),
            true,
            Err::<ReadGuard<'a, V>, Error<'a, K>>(err),
        ),
        Err(CreationError::DependencyError { key, cause }) => {
            &&& key == &req.factory.key
            &&& has_factory(cells, req)
            &&& method_outcome(
                cells,
                &req.args,
                true,
                seq![req.factory.key],
                Err::<Resolved<'a, V>, Error<'a, K>>(*cause),
            )
        },
        Err(CreationError::CreationError { key, .. }) => {
            &&& key == &req.factory.key
            &&& has_factory(cells, req)
            &&& answerable(cells, &req.args)
        },
    }
}

/// Whether `r` is what comes of asking the factory of `req`: the object it
/// made, or its failure under the key of the factory. Nothing else can come
/// once the factory and its services are in hand.
pub open spec fn made_by_factory<'a, K, Obj, CE>(
    req: &'a Create<K>,
    r: Result<Obj, CreationError<'a, K, CE>>,
) -> bool {
    match r {
        Ok(_) => true,
        Err(CreationError::CreationError { key, .. }) => key == &req.factory.key,
        Err(_) => false,
    }
}

/// Whether `r` is an answer that the first two steps of `req` may give on
/// `cells`: the guard of the factory and the answer to its request, or the
/// error of the step that failed.
pub open spec fn acquire_outcome<'a, K, V, CE>(
    cells: Map<K, ServiceCell<V>>,
    req: &'a Create<K>,
    r: Result<(ReadGuard<'a, V>, Resolved<'a, V>), CreationError<'a, K, CE>>,
) -> bool {
    match r {
        Ok((factory, args)) => {
            &&& access_outcome(
                cells,
                &req.factory.key,
                Some(req.factory.tag),
                true,
                Ok::<ReadGuard<'a, V>, Error<'a, K>>(factory),
            )
            &&& method_outcome(cells, &req.args, true, seq![req.factory.key], Ok(args))
        },
        Err(CreationError::LockError(err)) => access_outcome(
            cells,
            &req.factory.key,
            Some(req.factory.tag),
            true,
            Err::<ReadGuard<'a, V>, Error<'a, K>>(err),
        ),
        Err(CreationError::DependencyError { key, cause }) => {
            &&& key == &req.factory.key
            &&& has_factory(cells, req)
            &&& method_outcome(
                cells,
                &req.args,
                true,
                seq![req.factory.key],
                Err::<Resolved<'a, V>, Error<'a, K>>(*cause),
            )
        },
        Err(CreationError::CreationError { .. }) => false,
    }
}

/// Takes the factory of `req` for reading, then answers the request that
/// `req` makes for it, waiting for each lock. No coordinating lock is taken.
///
/// The request is answered while the guard of the factory is held: where it
/// asks for the factory itself, it does not wait. Where the request fails,
/// the guard of the factory is released again.
pub fn acquire<'a, K: Key, V, S: Services<K, V>, CE>(src: &'a S, req: &'a Create<K>) -> (r: Result<
    (ReadGuard<'a, V>, Resolved<'a, V>),
    CreationError<'a, K, CE>,
>)
    requires
        src.valid(),
        key_laws::<K>(),
    ensures
        acquire_outcome(src.cells(), req, r),
{
    let factory = match read_typed(src, &req.factory.key, req.factory.tag, true) {
        Ok(guard) => guard,
        Err(err) => {
            return Err(CreationError::LockError(err));
        },
    };
    let mut taken: Vec<&'a K> = Vec::new();
    taken.push(&req.factory.key);
    assert(taken@.unref() =~= seq![req.factory.key]);
    match req.args.resolve_after(src, true, &mut taken) {
        Ok(args) => Ok((factory, args)),
        Err(err) => Err(
            CreationError::DependencyError { key: &req.factory.key, cause: Box::new(err) },
        ),
    }
}

/// Turns what a factory returned into the answer of the call that asked for
/// the object: a failure is reported under the key of the factory.
pub fn wrap_made<'a, K, Obj, CE>(key: &'a K, made: Result<Obj, CE>) -> (r: Result<
    Obj,
    CreationError<'a, K, CE>,
>)
    ensures
        r == (match made {
            Ok(obj) => Ok::<Obj, CreationError<'a, K, CE>>(obj),
            Err(error) => Err(CreationError::CreationError { key, error }),
        }),
{
    match made {
        Ok(obj) => Ok(obj),
        Err(error) => Err(CreationError::CreationError { key, error }),
    }
}

/// Hands the answer of the first two steps on to the factory, and reports
/// what it made. All guards are released when the factory is done.
pub fn finish<'a, K: Key, V: Factory<V, Obj>, S: Services<K, V>, Obj>(
    src: &'a S,
    req: &'a Create<K>,
    acquired: Result<(ReadGuard<'a, V>, Resolved<'a, V>), CreationError<'a, K, V::Error>>,
) -> (r: Result<Obj, CreationError<'a, K, V::Error>>)
    requires
        acquire_outcome(src.cells(), req, acquired),
    ensures
        creation_outcome(src.cells(), req, r),
        acquired matches Err(err) ==> r == Err::<Obj, CreationError<'a, K, V::Error>>(err),
        acquired is Ok ==> made_by_factory(req, r),
{
    match acquired {
        Ok((factory, args)) => {
            proof {
                lemma_answered_is_answerable(
                    src.cells(),
                    &req.args,
                    true,
                    seq![req.factory.key],
                    args,
                );
            }
            wrap_made(&req.factory.key, factory.get().create(args))
        },
        Err(err) => Err(err),
    }
}

impl<K: Key> Create<K> {
    /// Carries the request out on `services`, waiting for each lock and
    /// taking no coordinating lock: takes the factory, answers the request
    /// made for it, and hands the answer to the factory.
    pub fn invoke<'a, V: Factory<V, Obj> + 'a, S: Services<K, V>, Obj>(&'a self, services: &'a S) -> (r:
        Result<Obj, CreationError<'a, K, V::Error>>)
        requires
            services.valid(),
            key_laws::<K>(),
        ensures
            creation_outcome(services.cells(), self, r),
    {
        let acquired = acquire(services, self);
        finish(services, self, acquired)
    }
}

} // verus!
