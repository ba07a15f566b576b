# litecoin_mweb

Litecoin MimbleWimble extension block (MWEB) wire types and the typed MWEB maps of a PSBT,
written in Verus with their contracts proved.

- `src/encoding.rs`: little-endian integers, CompactSize and byte vectors, with their parsers.
- `src/varint.rs`: the Litecoin Core varint used for MWEB amounts and heights.
- `src/pubkey.rs`: secp256k1 public keys, parsed by the `secp256k1` crate.
- `src/wire.rs`: the `Wire` trait (decode, encode, round trip) and vector helpers.
- `src/mimblewimble.rs`: peg-out coins, kernels, inputs, output messages, outputs, bodies and
  transactions.
- `src/psbt/`: raw PSBT pairs and key sources, the kernel, input and output maps, and the
  assembly of a wire transaction from them.
- `app/lib.rs`: adapters for `bitcoin_io` streams and for the `BTreeMap` unknown maps of a PSBT.
