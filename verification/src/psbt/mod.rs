//! The typed MWEB maps of a PSBT (`0x90+` keys) and the assembly of a wire MWEB transaction
//! from them.

pub mod types;
pub mod raw;
pub mod kernel;
pub mod output;
pub mod input;
pub mod extract;

use vstd::prelude::*;
use crate::encoding::{copy_bytes, le_bytes, write_le, DecodeError};

verus! {

/// Which part of the MWEB PSBT maps is missing or malformed.
#[derive(Clone, Copy, Debug, PartialEq, Eq)]
pub enum MapProblem {
    KernelPegoutTooShort,
    InputMissingOutputId,
    InputMissingCommit,
    InputMissingOutputPubkey,
    InputMissingSignature,
    InputSignatureLength,
    OutputMissingCommit,
    OutputMissingSenderPubkey,
    OutputMissingOutputPubkey,
    OutputMissingRangeProof,
    OutputRangeProofLength,
    OutputMissingSignature,
    OutputSignatureLength,
    KernelMissingExcess,
    KernelMissingSignature,
    IncompleteKeyOrigins,
}

pub open spec fn map_problem_message(p: MapProblem) -> Seq<char> {
    match p {
        MapProblem::KernelPegoutTooShort => "kernel pegout value too short"@,
        MapProblem::InputMissingOutputId => "input map missing output_id"@,
        MapProblem::InputMissingCommit => "input map missing commit"@,
        MapProblem::InputMissingOutputPubkey => "input map missing output_pubkey"@,
        MapProblem::InputMissingSignature => "input map missing signature"@,
        MapProblem::InputSignatureLength => "input signature must be 64 bytes"@,
        MapProblem::OutputMissingCommit => "output map missing commit"@,
        MapProblem::OutputMissingSenderPubkey => "output map missing sender_pubkey"@,
        MapProblem::OutputMissingOutputPubkey => "output map missing output_pubkey"@,
        MapProblem::OutputMissingRangeProof => "output map missing range_proof"@,
        MapProblem::OutputRangeProofLength => "range_proof must be 675 bytes"@,
        MapProblem::OutputMissingSignature => "output map missing signature"@,
        MapProblem::OutputSignatureLength => "output signature must be 64 bytes"@,
        MapProblem::KernelMissingExcess => "kernel map missing excess"@,
        MapProblem::KernelMissingSignature => "kernel map missing signature"@,
        MapProblem::IncompleteKeyOrigins => "incomplete MWEB key origins (need scan, spend, and address index)"@,
    }
}

impl MapProblem {
    /// The human-readable reason.
    pub fn message(&self) -> (m: &'static str)
        ensures
            m@ == map_problem_message(*self),
    {
        match self {
            MapProblem::KernelPegoutTooShort => "kernel pegout value too short",
            MapProblem::InputMissingOutputId => "input map missing output_id",
            MapProblem::InputMissingCommit => "input map missing commit",
            MapProblem::InputMissingOutputPubkey => "input map missing output_pubkey",
            MapProblem::InputMissingSignature => "input map missing signature",
            MapProblem::InputSignatureLength => "input signature must be 64 bytes",
            MapProblem::OutputMissingCommit => "output map missing commit",
            MapProblem::OutputMissingSenderPubkey => "output map missing sender_pubkey",
            MapProblem::OutputMissingOutputPubkey => "output map missing output_pubkey",
            MapProblem::OutputMissingRangeProof => "output map missing range_proof",
            MapProblem::OutputRangeProofLength => "range_proof must be 675 bytes",
            MapProblem::OutputMissingSignature => "output map missing signature",
            MapProblem::OutputSignatureLength => "output signature must be 64 bytes",
            MapProblem::KernelMissingExcess => "kernel map missing excess",
            MapProblem::KernelMissingSignature => "kernel map missing signature",
            MapProblem::IncompleteKeyOrigins => "incomplete MWEB key origins (need scan, spend, and address index)",
        }
    }
}

/// Errors of the MWEB PSBT maps.
#[derive(Clone, Copy, Debug, PartialEq, Eq)]
pub enum Error {
    /// The separator that ends a map was read.
    NoMorePairs,
    /// A key longer than a vector may be.
    OversizedVectorAllocation { requested: u64, max: u64 },
    /// Decoding a value's consensus encoding failed.
    ConsensusEncoding(DecodeError),
    /// Fields that the MWEB transaction needs are missing or malformed.
    IncompleteMwebMaps(MapProblem),
    /// Bytes that secp256k1 does not accept as a public key.
    InvalidSecp256k1PublicKey,
}

/// The model of an optional byte array or vector.
pub open spec fn opt_bytes_view<T: View<V = Seq<u8>>>(o: Option<T>) -> Option<Seq<u8>> {
    match o {
        Some(x) => Some(x@),
        None => None,
    }
}

/// The `n` little-endian bytes of an optional integer.
pub open spec fn opt_le_bytes(o: Option<u64>, n: nat) -> Option<Seq<u8>> {
    match o {
        Some(x) => Some(le_bytes(x as nat, n)),
        None => None,
    }
}

/// Copies a slice into a vector.
pub fn to_vec(s: &[u8]) -> (v: Vec<u8>)
    ensures
        v@ == s@,
{
    copy_bytes(s, 0, s.len())
}

/// Copies an optional byte vector.
pub fn clone_opt_bytes(o: &Option<Vec<u8>>) -> (r: Option<Vec<u8>>)
    ensures
        opt_bytes_view(r) == opt_bytes_view(*o),
{
    match o {
        Some(v) => Some(to_vec(v.as_slice())),
        None => None,
    }
}

/// Copies a slice of exactly `N` bytes into an array.
pub fn to_array<const N: usize>(s: &[u8]) -> (a: [u8; N])
    requires
        s@.len() == N,
    ensures
        a@ == s@,
{
    let mut a: [u8; N] = [0u8; N];
    let mut i: usize = 0;
    while i < N
        invariant
            i <= N,
            s@.len() == N,
            a@.len() == N,
            forall|k: int| 0 <= k < i ==> a@[k] == s@[k],
        decreases N - i,
    {
        a[i] = s[i];
        i = i + 1;
    }
    assert(a@ =~= s@);
    a
}

/// The little-endian bytes of `v` as a vector of `n <= 8` bytes.
pub fn le_vec(v: u64, n: usize) -> (b: Vec<u8>)
    requires
        n <= 8,
    ensures
        b@ == le_bytes(v as nat, n as nat),
{
    let mut b: Vec<u8> = Vec::new();
    write_le(v, n, &mut b);
    assert(b@ =~= Seq::<u8>::empty() + le_bytes(v as nat, n as nat));
    b
}

} // verus!
