use vstd::prelude::*;

verus! {

/// The mempool component: it gathers client transactions into payloads that
/// travel over the gossip network and that the consensus orders.
pub struct Mempool;

} // verus!
