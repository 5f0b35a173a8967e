# cosmwasm_testing_util

Test environments for smart contracts, with the logic verified by Verus.

- `src/` is the verified library. It keeps the store with its iterators and gas, reads and writes
  addresses, checks signatures, prepares the calls of a single contract and settles their outcome,
  moves the blocks of a chain, and plans how coins and tokens are given out.
- `app/` runs what the library decides: on the virtual machine of `cosmwasm_vm`, on the chain of
  `cw_multi_test`, and on that of `osmosis_test_tube`.
- `tests/` runs the library, with the outside crates linked.

| Module | What it holds |
| --- | --- |
| `storage`, `bytes` | the store, its iterators, and the order of its keys |
| `state` | the format in which a store is dumped |
| `backend`, `errors` | gas and errors |
| `api`, `base32`, `crypto`, `text` | addresses, signatures, amounts as text |
| `contract` | the calls of a single contract |
| `types` | coins, times, blocks, answers |
| `tokens`, `mint_plan` | tokens, and how they are created and given out |
| `multi_test`, `test_tube` | the two environments on a chain |

Functions that call an outside crate are marked `external_body`, each with a comment that says what
is taken for granted of it. Proof functions whose name begins with `law_` state what holds of the
library as a whole.
