//! Wire-format helper types.

use vstd::prelude::*;

verus! {

/// A map entry represented as a structured object: the wire format a
/// model fills in for generic maps.
#[derive(Debug, Clone)]
pub struct KeyValue<K, V> {
    pub key: K,
    pub value: V,
}

} // verus!
