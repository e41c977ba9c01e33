use vstd::prelude::*;
use crate::types::Digest;

verus! {

/// What the checkpointing components tell each other.
#[derive(Clone, Copy, Debug)]
pub enum CheckpointEvent {
    /// A verified proposal of the leader of an iteration.
    NewProposal(usize, Digest),
    /// The decision of an iteration: a checkpoint, or none.
    NewCheckpoint(usize, Option<Digest>),
}

} // verus!
