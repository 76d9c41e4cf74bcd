//! What a type must offer to serve as a key.
use vstd::prelude::*;
use vstd::laws_cmp::obeys_cmp;
use vstd::laws_eq::obeys_concrete_eq;
use vstd::std_specs::cmp::OrdSpec;
use crate::service::TypeTag;

verus! {

/// A key of a service or of a stage: totally ordered, and usable from any
/// thread. Every type with these properties is a key.
pub trait Key: Ord + Send + Sync {

}

impl<T: Ord + Send + Sync> Key for T {

}

/// Describes one type of service: the key under which its value is
/// registered, and the tag of the type.
#[derive(Debug)]
pub struct Service<K> {
    pub key: K,
    pub tag: TypeTag,
}

/// The laws that the containers rely on: the comparison of `K` is a total
/// order, and its `==` holds of equal values only.
pub open spec fn key_laws<K: Key>() -> bool {
    obeys_cmp::<K>() && obeys_concrete_eq::<K>()
}

/// Whether `a` comes before `b` in the order of the keys.
pub open spec fn key_before<K: Key>(a: K, b: K) -> bool {
    a.cmp_spec(&b) is Less
}

} // verus!
