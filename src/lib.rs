use vstd::prelude::*;

pub mod access;
pub mod features;
pub mod keyed;
pub mod metrics;
pub mod persistence;
pub mod refresh;
pub mod registry;
pub mod token;
pub mod token_cache;
pub mod validator;

verus! {

/// The concurrent map of the `dashmap` crate, which holds the token, feature
/// and refresh-target caches; opaque here, and read through the wrappers
/// next to each cache.
#[verifier::external_type_specification]
#[verifier::external_body]
#[verifier::reject_recursive_types(K)]
#[verifier::reject_recursive_types(V)]
#[verifier::reject_recursive_types(S)]
pub struct ExDashMap<K, V, S>(dashmap::DashMap<K, V, S>);

} // verus!
