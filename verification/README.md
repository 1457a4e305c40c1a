# lightweight_shred

Parsing of Solana shreds and recovery of lost ones by their erasure code, verified with Verus.

- `Shred` parses and checks data and coding shreds.
- `wire` reads pieces of a shred off its bytes; `should_discard_shred` tells which shreds to drop on
  sight.
- `ReedSolomonCache` keeps codecs of the erasure code.
- `recover` and `recover_data_only` recover the missing shreds of an erasure batch.

Only Merkle shreds with a chained root are read: the variant bytes of legacy shreds, 0xa5 and 0x5a, are
refused like any other unknown byte.

Making shreds, packets and storage are not part of the library.

## Layout

| Module | Contents |
| --- | --- |
| `bytes_util`, `crypto` | little-endian integers and byte strings; hashes and signatures |
| `error`, `stats` | errors; counters of discarded shreds |
| `shred_type`, `flags`, `header`, `id` | the headers of a shred and their bytes |
| `geometry` | where the parts of a shred lie |
| `payload` | the bytes of a shred, and guards through which they are written |
| `merkle_tree`, `merkle` | the Merkle tree of a batch; proofs in payloads |
| `model` | a shred as the contracts see it |
| `shred_data`, `shred_code`, `shred` | shreds |
| `wire` (also `layout`), `discard` | shreds as bytes |
| `reed_solomon` | the erasure code |
| `recover` | recovery |
| `laws`, `recover_laws`, `copy_laws`, `data_only_laws`, `restore` | what holds of all of it |

`app/` has errors with messages, copies of types that can be serialised, a guard that stands for the
bytes themselves, and functions in the types of the Solana crates.

## What is trusted

The hash, the signature check, the erasure code, the cache and the shared byte strings are those of
outside crates. Each call goes through a small function whose doc comment names the outside function
and says what is taken for granted of it.
