//! The types of other crates that appear in this crate's signatures.

use serde_json::Value as JsonDocument;
use vstd::prelude::*;

verus! {

/// `indexmap::IndexMap`, a map that keeps its entries in the order of
/// insertion. Nothing of its inside is known here.
#[verifier::external_type_specification]
#[verifier::external_body]
#[verifier::reject_recursive_types(K)]
#[verifier::reject_recursive_types(V)]
#[verifier::reject_recursive_types(S)]
pub struct ExIndexMap<K, V, S>(indexmap::IndexMap<K, V, S>);

/// `IndexMap::clone`. Nothing is claimed of the copy.
pub assume_specification<K, V, S>[ <indexmap::IndexMap<K, V, S> as std::clone::Clone>::clone ](
    map: &indexmap::IndexMap<K, V, S>,
) -> indexmap::IndexMap<K, V, S> where K: std::clone::Clone, S: std::clone::Clone, V: std::clone::Clone
;

/// `serde_json::Value`, a JSON document. Nothing of its inside is known
/// here.
#[verifier::external_type_specification]
#[verifier::external_body]
pub struct ExJsonDocument(JsonDocument);

} // verus!
