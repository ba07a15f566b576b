//! Litecoin MimbleWimble extension block (MWEB) wire types and their PSBT maps.
//!
//! The library covers the consensus encoding of MWEB transactions, kernels, inputs and outputs,
//! the Litecoin Core varint used for MWEB amounts, and the typed PSBT maps (`0x90+` keys) that
//! carry MWEB data through a PSBT, together with the assembly of a wire transaction from them.
//! Cryptographic validity (range proofs, signatures, balance) is out of scope.

pub mod encoding;
pub mod varint;
pub mod pubkey;
pub mod wire;
pub mod mimblewimble;
pub mod psbt;
