# rollup

A small zero-knowledge rollup. Users hand transfers to a sequencer, or deposit funds and force
transfers through a bridge contract on the base layer. The sequencer executes blocks right away,
has each block proven, and sends the proof to the bridge.

`src/` is the verified library:

- `hash`, `bytes`, `text`: digests, fixed-width numbers, error texts.
- `types`, `merkle`, `abi`: accounts and block items, Merkle paths, the base layer's encoding.
- `stf`: the state transition function, which is what gets proven.
- `tree`, `proofs`, `executor`: what is read from the state tree, the proofs for a block, and the
  execution of a block ahead of its proof.
- `supply`: how much money there is, before and after.
- `builder`, `prover`: the order of steps in which a block is built, and in which it is proven.
- `sequencer`, `l1`, `persistence`, `notes`, `config`, `error`: the decisions that the sequencer
  takes between two pieces of input or output.

The state tree lives in a database. The library works on the answers that were read so far
(`TreeReads`) and stops with the question that it needs answered next; the caller answers it and
calls again. The laws `law_more_answers_keep_block` and `law_more_answers_keep_batch` say that the
result is then the one that all of the tree would give.

Digests, ABI encoding and `bincode` decoding come from the crates `sha3`, `alloy-sol-types`,
`alloy-primitives` and `bincode`. What is taken for granted of them stands above the functions
marked `#[verifier::external_body]`.

`app/` holds the programs: HTTP, databases, the base layer, and the prover.
