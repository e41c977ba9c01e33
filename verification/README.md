# mynode

A node of a checkpointed longest-chain protocol: miners extend a tree of
blocks, and a committee running HotStuff periodically agrees on a checkpoint
that every honest node's chain must extend.

The library (`src/`) is verified with Verus:

- `lcblocks`, `lcblocktree`, `tree_laws`, `dot`: blocks, the block tree
  (heights, prefixes, leading tip, honest heights, Graphviz output) and the
  laws the tree obeys.
- `config`, `crypto`, `cpactions`, `cpleader`, `consensus_leader`: the
  committee, keys and signatures, the signed checkpoint transactions and the
  pseudo-random leader election.
- `cpextractor`, `cpproposer`, `proposer_laws`, `lcblocktreemanager`,
  `miner`, `adversary`, `ledger`: the decision logic of the node's
  components, each a state machine from event to next state and actions.
- `gossip`, `keyed`: the swarm configuration and the dispatcher of the gossip
  layer.
- `types`, `hashing`, `codec`, `display`, `advmsg`: digests and keys, SHA-512,
  bincode encodings and the text of keys and numbers.

`app/` runs a node: command line, configuration files, libp2p, timers and
channels. `tests/` exercises the library on concrete values.
