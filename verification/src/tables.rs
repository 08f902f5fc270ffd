//! The concurrent hash map that holds devices, addresses and buckets.

use vstd::prelude::*;
use dashmap::DashMap;

verus! {

/// `dashmap::DashMap`, declared so that it can stand in fields and
/// signatures. Its contents are named per table type where it is used.
#[verifier::external_type_specification]
#[verifier::external_body]
#[verifier::reject_recursive_types(K)]
#[verifier::reject_recursive_types(V)]
#[verifier::reject_recursive_types(S)]
pub struct ExDashMap<K, V, S>(DashMap<K, V, S>);

}
