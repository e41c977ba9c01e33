//! A checkpointed longest-chain node: the block tree of a longest-chain
//! protocol, the checkpointing committee, and the decision logic of the
//! components that mine, propose, vote and extract checkpoints.

pub mod types;
pub mod hashing;
pub mod codec;
pub mod display;
pub mod keyed;

pub mod lcblocks;
pub mod lcblocktree;
pub mod tree_laws;
pub mod dot;

pub mod config;
pub mod crypto;
pub mod cpactions;
pub mod cpevents;
pub mod cpleader;
pub mod consensus_leader;

pub mod cpextractor;
pub mod lcblocktreemanager;
pub mod cpproposer;
pub mod proposer_laws;
pub mod miner;
pub mod advmsg;
pub mod adversary;
pub mod ledger;

pub mod gossip;
pub mod consensus;
pub mod mempool;
