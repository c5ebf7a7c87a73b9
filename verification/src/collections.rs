//! The `hashbrown` hash map, declared so that verified code can hold one.
//! What each map holds is named in the module that uses it.

use vstd::prelude::*;

verus! {

/// `hashbrown::HashMap`, opaque to verification.
#[verifier::external_type_specification]
#[verifier::external_body]
#[verifier::reject_recursive_types(K)]
#[verifier::reject_recursive_types(V)]
#[verifier::reject_recursive_types(S)]
pub struct ExHashbrownMap<K, V, S>(hashbrown::HashMap<K, V, S>);

/// The hasher that `hashbrown` maps use by default, opaque to verification.
#[verifier::external_type_specification]
#[verifier::external_body]
pub struct ExDefaultHashBuilder(hashbrown::hash_map::DefaultHashBuilder);

} // verus!
