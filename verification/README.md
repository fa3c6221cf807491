# pallets

The storage logic of a few small Substrate pallets and of an ERC-20 token
contract, written in Verus with every state change specified and proved.

- `storage`: a storage map (keys kept once each) that all pallets store in.
- `linked_item`: per-account doubly linked lists kept in a storage map, with
  proofs that appending and removing keep the list that the map encodes.
- `ownership`: how the owner map and the owners' lists stay in step.
- `dna`: kitty DNA, drawn by hashing the SCALE-encoded random seed (through
  `parity-scale-codec` and `sp-io`) and mixed from two parents.
- `kitties`: the kitties pallet (create, breed, transfer, ask, buy).
- `kitties_indexed`: the earlier kitties pallet that numbers each account's kitties.
- `poe`: the proof-of-existence pallet.
- `template`: the template pallet and the computation of its off-chain worker.
- `erc20`: the token contract.

`app/` holds what needs a runtime: signed origins, SCALE-encodable copies of
stored records, and the off-chain worker's storage and submission.
