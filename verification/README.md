# ironwood

A verified library for the Orchard-shaped shielded pools of Zcash, the Ironwood pool among them.
Its functions are proved by [Verus](https://github.com/verus-lang/verus) to do what their contracts
say, but for those that only call another crate, whose contracts are taken for granted.

| Module | What it does |
| --- | --- |
| `value`, `consensus`, `pool`, `field`, `text` | amounts, network upgrades and branches, bundle versions and flags, field elements, texts |
| `fees` | the fee and the change that balance a transaction, and the inputs that are not worth spending |
| `scanning` | scanning of compact blocks for the notes and the spends of a wallet |
| `memwallet` | a wallet in memory, read from its records and written to them |
| `components` | bundles in their wire format, and the builder of an Orchard bundle |
| `pczt` | partially created transactions: the Creator, the low-level Signer, the Verifier, the Prover and the checks of the Transaction Extractor |
| `migrations` | the steps of two migrations of the wallet database |

What the crates of the protocols compute (keys, notes, commitments, proofs) stays with them: it is
called through functions marked `#[verifier::external_body]`, whose doc comments say what is taken
for granted.

`tests/` runs the library with those crates. `app/` is ordinary Rust around it: streams, protobuf
messages and SQLite.
