pub mod engine;
pub mod observation;
pub mod stratify;

pub use observation::Observation;

use vstd::prelude::*;

verus! {

/// A message for the statistics engine: data to take in, or a key to drop.
pub enum TransportMsg<K, V> {
    HandleData(V),
    RemoveData(K),
}

} // verus!
pub mod matcher;
