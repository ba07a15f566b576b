//! Litecoin MimbleWimble (MWEB) transaction types and their consensus encoding.
//!
//! Covers the wire format of transactions, kernels, inputs and outputs as they appear inside a
//! Litecoin block. The cryptographic verification (range proofs, kernel signatures, Pedersen
//! commitment balancing) is out of scope; public keys are checked only for being valid
//! secp256k1 points.

use vstd::prelude::*;
use vstd::pervasive::arbitrary;
use crate::encoding::{
    byte_vec_bytes, compact_size_bytes, decoded_as, lemma_byte_vec_roundtrip, parse_byte_vec, parse_fixed, parse_u8,
    parse_u64_le, le_bytes, le_value, lemma_le_roundtrip, lemma_pow256_values, read_byte_vec,
    read_u8, read_u64_le, write_byte_vec, write_le, DecodeError, ParseFailure, SpecParse,
};
use crate::varint::{amount_bytes, lemma_amount_roundtrip, parse_amount, read_amount, write_amount};
use crate::pubkey::{
    is_valid_public_key, lemma_public_key_len, secp256k1_parse_public_key, PublicKey,
};
use crate::wire::{
    concat_map, concat_parts, decode_vec, decoded_vec_as, enc_parts, enc_then, encode_vec, encode_vec_items,
    encoded_as, lemma_enc_parts_advance, lemma_encode_vec_layout, lemma_enc_parts_all, lemma_enc_parts_begin,
    lemma_enc_parts_end, lemma_enc_parts_stopped, wrote, write_wire_part,
    lemma_skip_skip, lemma_vec_roundtrip, models, parse_vec, read_array, write_array, EncodeError,
    EncodeOutcome, Wire,
};

verus! {

broadcast use lemma_skip_skip, lemma_public_key_len;

/// Kernel feature bits.
#[derive(Clone, Copy, Debug, PartialEq, Eq)]
pub enum KernelFeatures {
    FeeFeatureBit,
    PeginFeatureBit,
    PegoutFeatureBit,
    HeightLockFeatureBit,
    StealthExcessFeatureBit,
    ExtraDataFeatureBit,
}

impl KernelFeatures {
    /// The bit of the kernel's features byte that announces the field.
    pub fn bit(self) -> (b: u8)
        ensures
            b == match self {
                KernelFeatures::FeeFeatureBit => 0x01u8,
                KernelFeatures::PeginFeatureBit => 0x02u8,
                KernelFeatures::PegoutFeatureBit => 0x04u8,
                KernelFeatures::HeightLockFeatureBit => 0x08u8,
                KernelFeatures::StealthExcessFeatureBit => 0x10u8,
                KernelFeatures::ExtraDataFeatureBit => 0x20u8,
            },
    {
        match self {
            KernelFeatures::FeeFeatureBit => 0x01,
            KernelFeatures::PeginFeatureBit => 0x02,
            KernelFeatures::PegoutFeatureBit => 0x04,
            KernelFeatures::HeightLockFeatureBit => 0x08,
            KernelFeatures::StealthExcessFeatureBit => 0x10,
            KernelFeatures::ExtraDataFeatureBit => 0x20,
        }
    }
}

/// Output feature bits.
#[derive(Clone, Copy, Debug, PartialEq, Eq)]
pub enum OutputFeatures {
    StandardFieldsFeatureBit,
    ExtraDataFeatureBit,
}

impl OutputFeatures {
    /// The bit of the output message's features byte that announces the field.
    pub fn bit(self) -> (b: u8)
        ensures
            b == match self {
                OutputFeatures::StandardFieldsFeatureBit => 0x01u8,
                OutputFeatures::ExtraDataFeatureBit => 0x02u8,
            },
    {
        match self {
            OutputFeatures::StandardFieldsFeatureBit => 0x01,
            OutputFeatures::ExtraDataFeatureBit => 0x02,
        }
    }
}

// ----- Optional fields ---------------------------------------------------------------------------

/// An amount that is on the wire only when `present`.
pub open spec fn parse_opt_amount(s: Seq<u8>, present: bool) -> SpecParse<Option<i64>> {
    if !present {
        Ok((None, 0))
    } else {
        match parse_amount(s) {
            Ok((a, n)) => Ok((Some(a), n)),
            Err(e) => Err(e),
        }
    }
}

/// An amount that must be written when `present`; `err` when it is missing then.
pub open spec fn enc_opt_amount(present: bool, a: Option<i64>, err: EncodeError) -> EncodeOutcome {
    if !present {
        Ok(Seq::empty())
    } else {
        match a {
            Some(x) => Ok(amount_bytes(x)),
            None => Err((Seq::empty(), err)),
        }
    }
}

pub(crate) fn read_opt_amount(data: &[u8], pos: usize, present: bool) -> (res: Result<(Option<i64>, usize), DecodeError>)
    requires
        pos <= data@.len(),
    ensures
        decoded_as(res, pos as int, parse_opt_amount(data@.skip(pos as int), present)),
        res matches Ok((_, end)) ==> pos <= end <= data@.len(),
{
    if !present {
        return Ok((None, pos));
    }
    let (a, p) = read_amount(data, pos)?;
    Ok((Some(a), p))
}

/// A 33-byte public key field; `failure` when secp256k1 rejects it.
pub open spec fn parse_key(s: Seq<u8>, failure: ParseFailure) -> SpecParse<Seq<u8>> {
    match parse_fixed(s, 33) {
        Err(e) => Err(e),
        Ok((b, n)) => match secp256k1_parse_public_key(b) {
            Some(c) => Ok((c, n)),
            None => Err(DecodeError::ParseFailed(failure)),
        },
    }
}

/// A public key that is on the wire only when `present`.
pub open spec fn parse_opt_key(s: Seq<u8>, present: bool, failure: ParseFailure) -> SpecParse<
    Option<Seq<u8>>,
> {
    if !present {
        Ok((None, 0))
    } else {
        match parse_key(s, failure) {
            Ok((c, n)) => Ok((Some(c), n)),
            Err(e) => Err(e),
        }
    }
}

/// A public key that must be written when `present`; `err` when it is missing then.
pub open spec fn enc_opt_key(present: bool, k: Option<Seq<u8>>, err: EncodeError) -> EncodeOutcome {
    if !present {
        Ok(Seq::empty())
    } else {
        match k {
            Some(c) => Ok(c),
            None => Err((Seq::empty(), err)),
        }
    }
}

pub open spec fn opt_key_model(o: Option<PublicKey>) -> Option<Seq<u8>> {
    match o {
        Some(k) => Some(k@),
        None => None,
    }
}

fn read_key(data: &[u8], pos: usize, failure: ParseFailure) -> (res: Result<(PublicKey, usize), DecodeError>)
    requires
        pos <= data@.len(),
    ensures
        decoded_as(res, pos as int, parse_key(data@.skip(pos as int), failure)),
        res matches Ok((_, end)) ==> pos <= end <= data@.len(),
{
    let (bytes, p) = read_array::<33>(data, pos)?;
    match PublicKey::from_slice(bytes.as_slice()) {
        Some(k) => Ok((k, p)),
        None => Err(DecodeError::ParseFailed(failure)),
    }
}

pub(crate) fn read_opt_key(data: &[u8], pos: usize, present: bool, failure: ParseFailure) -> (res: Result<
    (Option<PublicKey>, usize),
    DecodeError,
>)
    requires
        pos <= data@.len(),
    ensures
        match parse_opt_key(data@.skip(pos as int), present, failure) {
            Ok((o, n)) => res matches Ok((v, end)) && opt_key_model(v) == o && end == pos + n,
            Err(e) => res == Err::<(Option<PublicKey>, usize), DecodeError>(e),
        },
        res matches Ok((_, end)) ==> pos <= end <= data@.len(),
{
    if !present {
        return Ok((None, pos));
    }
    let (k, p) = read_key(data, pos, failure)?;
    Ok((Some(k), p))
}

/// A byte vector that is on the wire only when `present`, else empty.
pub open spec fn parse_opt_byte_vec(s: Seq<u8>, present: bool) -> SpecParse<Seq<u8>> {
    if !present {
        Ok((Seq::empty(), 0))
    } else {
        parse_byte_vec(s)
    }
}

pub open spec fn opt_byte_vec_bytes(present: bool, v: Seq<u8>) -> Seq<u8> {
    if present {
        byte_vec_bytes(v)
    } else {
        Seq::empty()
    }
}

pub(crate) fn read_opt_byte_vec(data: &[u8], pos: usize, present: bool) -> (res: Result<(Vec<u8>, usize), DecodeError>)
    requires
        pos <= data@.len(),
    ensures
        decoded_as(res, pos as int, parse_opt_byte_vec(data@.skip(pos as int), present)),
        res matches Ok((_, end)) ==> pos <= end <= data@.len(),
{
    if !present {
        return Ok((Vec::new(), pos));
    }
    read_byte_vec(data, pos)
}

/// A 33-byte key, and a key that is present or not, read back after being written.
proof fn lemma_key_roundtrip(c: Seq<u8>, failure: ParseFailure, rest: Seq<u8>)
    requires
        c.len() == 33,
        is_valid_public_key(c),
    ensures
        parse_key(c + rest, failure) == Ok::<(Seq<u8>, nat), DecodeError>((c, 33)),
{
    assert((c + rest).take(33) =~= c);
}

proof fn lemma_fixed_roundtrip(b: Seq<u8>, rest: Seq<u8>)
    ensures
        parse_fixed(b + rest, b.len()) == Ok::<(Seq<u8>, nat), DecodeError>((b, b.len())),
{
    assert((b + rest).take(b.len() as int) =~= b);
}

// ----- Part writers ------------------------------------------------------------------------------

fn write_u8_part(v: u8, out: &mut Vec<u8>) -> (r: Result<(), EncodeError>)
    ensures
        wrote(r, old(out)@, final(out)@, Ok(seq![v])),
{
    out.push(v);
    assert(out@ =~= old(out)@ + seq![v]);
    Ok(())
}

fn write_array_part<const N: usize>(a: &[u8; N], out: &mut Vec<u8>) -> (r: Result<(), EncodeError>)
    ensures
        wrote(r, old(out)@, final(out)@, Ok(a@)),
{
    write_array(a, out);
    Ok(())
}

fn write_key_part(k: &PublicKey, out: &mut Vec<u8>) -> (r: Result<(), EncodeError>)
    ensures
        wrote(r, old(out)@, final(out)@, Ok(k@)),
{
    let bytes = k.serialize();
    write_array(&bytes, out);
    Ok(())
}

fn write_opt_amount(present: bool, a: Option<i64>, err: EncodeError, out: &mut Vec<u8>) -> (r: Result<(), EncodeError>)
    ensures
        wrote(r, old(out)@, final(out)@, enc_opt_amount(present, a, err)),
{
    if present {
        match a {
            Some(x) => {
                write_amount(x, out);
                Ok(())
            },
            None => {
                assert(out@ =~= old(out)@ + Seq::<u8>::empty());
                Err(err)
            },
        }
    } else {
        assert(out@ =~= old(out)@ + Seq::<u8>::empty());
        Ok(())
    }
}

fn write_opt_key(present: bool, k: &Option<PublicKey>, err: EncodeError, out: &mut Vec<u8>) -> (r: Result<(), EncodeError>)
    ensures
        wrote(r, old(out)@, final(out)@, enc_opt_key(present, opt_key_model(*k), err)),
{
    if present {
        match k {
            Some(key) => write_key_part(key, out),
            None => {
                assert(out@ =~= old(out)@ + Seq::<u8>::empty());
                Err(err)
            },
        }
    } else {
        assert(out@ =~= old(out)@ + Seq::<u8>::empty());
        Ok(())
    }
}

fn write_opt_byte_vec(present: bool, v: &Vec<u8>, out: &mut Vec<u8>) -> (r: Result<(), EncodeError>)
    ensures
        wrote(r, old(out)@, final(out)@, Ok(opt_byte_vec_bytes(present, v@))),
{
    if present {
        write_byte_vec(v.as_slice(), out);
    } else {
        assert(out@ =~= old(out)@ + Seq::<u8>::empty());
    }
    Ok(())
}

fn write_vec_part<T: Wire>(items: &Vec<T>, out: &mut Vec<u8>) -> (r: Result<(), EncodeError>)
    ensures
        wrote(r, old(out)@, final(out)@, encode_vec::<T>(models(items@))),
{
    match encode_vec_items(items, out) {
        Ok(_) => Ok(()),
        Err(e) => Err(e),
    }
}

// ----- Peg-out coins -----------------------------------------------------------------------------

/// Peg-out coin: a destination on the regular Litecoin UTXO set funded by an MWEB kernel.
#[derive(Clone, PartialEq, Eq, PartialOrd, Ord, Debug, Hash)]
pub struct PegOutCoin {
    pub amount: i64,
    pub script_pub_key: Vec<u8>,
}

#[verifier::ext_equal]
pub struct PegOutCoinModel {
    pub amount: i64,
    pub script_pub_key: Seq<u8>,
}

impl View for PegOutCoin {
    type V = PegOutCoinModel;

    open spec fn view(&self) -> PegOutCoinModel {
        PegOutCoinModel { amount: self.amount, script_pub_key: self.script_pub_key@ }
    }
}

/// An amount, then the script as a byte vector, which may not be empty.
pub open spec fn parse_pegout_coin(s: Seq<u8>) -> SpecParse<PegOutCoinModel> {
    match parse_amount(s) {
        Err(e) => Err(e),
        Ok((amount, n)) => match parse_byte_vec(s.skip(n as int)) {
            Err(e) => Err(e),
            Ok((script, k)) => if script.len() == 0 {
                Err(DecodeError::ParseFailed(ParseFailure::PegoutScriptEmpty))
            } else {
                Ok((PegOutCoinModel { amount, script_pub_key: script }, n + k))
            },
        },
    }
}

pub open spec fn pegout_coin_bytes(m: PegOutCoinModel) -> Seq<u8> {
    amount_bytes(m.amount) + byte_vec_bytes(m.script_pub_key)
}

pub open spec fn pegout_coin_well_formed(m: PegOutCoinModel) -> bool {
    &&& m.amount >= 0
    &&& 0 < m.script_pub_key.len() <= u64::MAX
}

/// A peg-out coin with a non-negative amount and a non-empty script reads back as itself.
pub proof fn lemma_pegout_coin_roundtrip(m: PegOutCoinModel, rest: Seq<u8>)
    requires
        pegout_coin_well_formed(m),
    ensures
        parse_pegout_coin(pegout_coin_bytes(m) + rest) == Ok::<(PegOutCoinModel, nat), DecodeError>(
            (m, pegout_coin_bytes(m).len()),
        ),
{
    let a = amount_bytes(m.amount);
    let v = byte_vec_bytes(m.script_pub_key);
    lemma_amount_roundtrip(m.amount, v + rest);
    lemma_byte_vec_roundtrip(m.script_pub_key, rest);
    let s = pegout_coin_bytes(m) + rest;
    assert(s =~= a + (v + rest));
    assert(s.skip(a.len() as int) =~= v + rest);
}

impl Wire for PegOutCoin {
    open spec fn spec_parse(s: Seq<u8>) -> SpecParse<PegOutCoinModel> {
        parse_pegout_coin(s)
    }

    open spec fn spec_encode(m: PegOutCoinModel) -> EncodeOutcome {
        Ok(pegout_coin_bytes(m))
    }

    open spec fn spec_well_formed(m: PegOutCoinModel) -> bool {
        pegout_coin_well_formed(m)
    }

    fn consensus_decode(data: &[u8], pos: usize) -> (res: Result<(PegOutCoin, usize), DecodeError>) {
        let (amount, p) = read_amount(data, pos)?;
        let (script_pub_key, q) = read_byte_vec(data, p)?;
        // Mirror Litecoin Core PegOutCoin Unserialize: empty destinations are invalid on the wire.
        if script_pub_key.len() == 0 {
            return Err(DecodeError::ParseFailed(ParseFailure::PegoutScriptEmpty));
        }
        Ok((PegOutCoin { amount, script_pub_key }, q))
    }

    fn consensus_encode(&self, out: &mut Vec<u8>) -> (res: Result<usize, EncodeError>) {
        let start = out.len();
        write_amount(self.amount, out);
        write_byte_vec(self.script_pub_key.as_slice(), out);
        assert(out@ =~= old(out)@ + pegout_coin_bytes(self@));
        Ok(out.len() - start)
    }

    proof fn lemma_roundtrip(m: PegOutCoinModel, rest: Seq<u8>) {
        lemma_pegout_coin_roundtrip(m, rest);
    }
}

// ----- Kernels ----------------------------------------------------------------------------------

/// An MWEB kernel: signs the offset/excess that proves balance for a transaction.
#[derive(Clone, PartialEq, Eq, PartialOrd, Ord, Debug, Hash)]
pub struct Kernel {
    pub features: u8,
    pub fee: Option<i64>,
    pub pegin: Option<i64>,
    pub pegouts: Vec<PegOutCoin>,
    pub lock_height: Option<u32>,
    pub stealth_excess: Option<PublicKey>,
    pub extra_data: Vec<u8>,
    /// Remainder of the sum of all transaction commitments. If the transaction is well-formed,
    /// the amount components sum to zero and the excess is hence a valid public key.
    pub excess: [u8; 33],
    /// Signature proving the excess is a valid public key; signs the kernel commitments.
    pub signature: [u8; 64],
}

#[verifier::ext_equal]
pub struct KernelModel {
    pub features: u8,
    pub fee: Option<i64>,
    pub pegin: Option<i64>,
    pub pegouts: Seq<PegOutCoinModel>,
    pub lock_height: Option<u32>,
    pub stealth_excess: Option<Seq<u8>>,
    pub extra_data: Seq<u8>,
    pub excess: Seq<u8>,
    pub signature: Seq<u8>,
}

impl View for Kernel {
    type V = KernelModel;

    open spec fn view(&self) -> KernelModel {
        KernelModel {
            features: self.features,
            fee: self.fee,
            pegin: self.pegin,
            pegouts: models(self.pegouts@),
            lock_height: self.lock_height,
            stealth_excess: opt_key_model(self.stealth_excess),
            extra_data: self.extra_data@,
            excess: self.excess@,
            signature: self.signature@,
        }
    }
}

/// Peg-outs, on the wire only when `present`.
#[verifier::opaque]
pub open spec fn parse_opt_pegouts(s: Seq<u8>, present: bool) -> SpecParse<Seq<PegOutCoinModel>> {
    if !present {
        Ok((Seq::empty(), 0))
    } else {
        parse_vec::<PegOutCoin>(s)
    }
}

/// A lock height, on the wire only when `present`: an amount that must fit in a `u32`.
pub open spec fn parse_opt_lock_height(s: Seq<u8>, present: bool) -> SpecParse<Option<u32>> {
    if !present {
        Ok((None, 0))
    } else {
        match parse_amount(s) {
            Err(e) => Err(e),
            Ok((raw, n)) => if raw < 0 || raw > u32::MAX {
                Err(DecodeError::ParseFailed(ParseFailure::LockHeightOutOfRange))
            } else {
                Ok((Some(raw as u32), n))
            },
        }
    }
}

/// The kernel before any field after the features byte has been read.
pub open spec fn kernel_start(f: u8) -> KernelModel {
    KernelModel {
        features: f,
        fee: None,
        pegin: None,
        pegouts: Seq::empty(),
        lock_height: None,
        stealth_excess: None,
        extra_data: Seq::empty(),
        excess: Seq::empty(),
        signature: Seq::empty(),
    }
}

/// A kernel: the features byte, then each field its bit announces, in bit order, then the
/// excess and the signature. Each stage below reads one field at offset `p` of `s` into the
/// kernel read so far.
pub open spec fn parse_kernel(s: Seq<u8>) -> SpecParse<KernelModel> {
    match parse_u8(s) {
        Err(e) => Err(e),
        Ok((f, n)) => kernel_fee_stage(s, kernel_start(f), n),
    }
}

#[verifier::opaque]
pub open spec fn kernel_fee_stage(s: Seq<u8>, acc: KernelModel, p: nat) -> SpecParse<KernelModel> {
    match parse_opt_amount(s.skip(p as int), acc.features & 0x01 != 0) {
        Err(e) => Err(e),
        Ok((fee, n)) => kernel_pegin_stage(s, KernelModel { fee, ..acc }, p + n),
    }
}

#[verifier::opaque]
pub open spec fn kernel_pegin_stage(s: Seq<u8>, acc: KernelModel, p: nat) -> SpecParse<KernelModel> {
    match parse_opt_amount(s.skip(p as int), acc.features & 0x02 != 0) {
        Err(e) => Err(e),
        Ok((pegin, n)) => kernel_pegouts_stage(s, KernelModel { pegin, ..acc }, p + n),
    }
}

#[verifier::opaque]
pub open spec fn kernel_pegouts_stage(s: Seq<u8>, acc: KernelModel, p: nat) -> SpecParse<KernelModel> {
    match parse_opt_pegouts(s.skip(p as int), acc.features & 0x04 != 0) {
        Err(e) => Err(e),
        Ok((pegouts, n)) => kernel_lock_height_stage(s, KernelModel { pegouts, ..acc }, p + n),
    }
}

#[verifier::opaque]
pub open spec fn kernel_lock_height_stage(s: Seq<u8>, acc: KernelModel, p: nat) -> SpecParse<KernelModel> {
    match parse_opt_lock_height(s.skip(p as int), acc.features & 0x08 != 0) {
        Err(e) => Err(e),
        Ok((lock_height, n)) => kernel_stealth_stage(s, KernelModel { lock_height, ..acc }, p + n),
    }
}

#[verifier::opaque]
pub open spec fn kernel_stealth_stage(s: Seq<u8>, acc: KernelModel, p: nat) -> SpecParse<KernelModel> {
    match parse_opt_key(s.skip(p as int), acc.features & 0x10 != 0, ParseFailure::InvalidStealthExcess) {
        Err(e) => Err(e),
        Ok((stealth_excess, n)) => kernel_extra_stage(s, KernelModel { stealth_excess, ..acc }, p + n),
    }
}

#[verifier::opaque]
pub open spec fn kernel_extra_stage(s: Seq<u8>, acc: KernelModel, p: nat) -> SpecParse<KernelModel> {
    match parse_opt_byte_vec(s.skip(p as int), acc.features & 0x20 != 0) {
        Err(e) => Err(e),
        Ok((extra_data, n)) => kernel_excess_stage(s, KernelModel { extra_data, ..acc }, p + n),
    }
}

#[verifier::opaque]
pub open spec fn kernel_excess_stage(s: Seq<u8>, acc: KernelModel, p: nat) -> SpecParse<KernelModel> {
    match parse_fixed(s.skip(p as int), 33) {
        Err(e) => Err(e),
        Ok((excess, n)) => kernel_signature_stage(s, KernelModel { excess, ..acc }, p + n),
    }
}

#[verifier::opaque]
pub open spec fn kernel_signature_stage(s: Seq<u8>, acc: KernelModel, p: nat) -> SpecParse<KernelModel> {
    match parse_fixed(s.skip(p as int), 64) {
        Err(e) => Err(e),
        Ok((signature, n)) => Ok((KernelModel { signature, ..acc }, p + n)),
    }
}

/// Part `i` of a kernel's encoding. A field whose bit is set but which is missing stops the
/// encoding.
#[verifier::opaque]
pub open spec fn kernel_part(k: KernelModel, i: nat) -> EncodeOutcome {
    let f = k.features;
    if i == 0 {
        Ok(seq![f])
    } else if i == 1 {
        enc_opt_amount(f & 0x01 != 0, k.fee, EncodeError::KernelFeeMissing)
    } else if i == 2 {
        enc_opt_amount(f & 0x02 != 0, k.pegin, EncodeError::KernelPeginMissing)
    } else if i == 3 {
        if f & 0x04 != 0 {
            encode_vec::<PegOutCoin>(k.pegouts)
        } else {
            Ok(Seq::empty())
        }
    } else if i == 4 {
        enc_opt_amount(
            f & 0x08 != 0,
            match k.lock_height {
                Some(h) => Some(h as i64),
                None => None,
            },
            EncodeError::KernelLockHeightMissing,
        )
    } else if i == 5 {
        enc_opt_key(f & 0x10 != 0, k.stealth_excess, EncodeError::KernelStealthExcessMissing)
    } else if i == 6 {
        Ok(opt_byte_vec_bytes(f & 0x20 != 0, k.extra_data))
    } else if i == 7 {
        Ok(k.excess)
    } else {
        Ok(k.signature)
    }
}

pub open spec fn kernel_parts(k: KernelModel) -> spec_fn(nat) -> EncodeOutcome {
    |i: nat| kernel_part(k, i)
}

/// A kernel's encoding: its nine parts in order.
pub open spec fn encode_kernel(k: KernelModel) -> EncodeOutcome {
    enc_parts(kernel_parts(k), 0, 9)
}

/// The kernels whose encoding reads back as themselves: a field is present exactly when its
/// bit is set, amounts are not negative, peg-outs are well formed, the stealth excess is a
/// valid key, and the byte fields have their sizes.
/// The kernel's fields agree with its feature bits and sizes: a field is present exactly when
/// its bit is set (peg-outs and extra data are empty without theirs), amounts are not negative,
/// each peg-out has a non-empty script, and the stealth excess, excess and signature have their
/// sizes.
pub open spec fn kernel_fields_agree(k: KernelModel) -> bool {
    let f = k.features;
    &&& (f & 0x01 != 0) == k.fee is Some
    &&& (k.fee matches Some(a) ==> a >= 0)
    &&& (f & 0x02 != 0) == k.pegin is Some
    &&& (k.pegin matches Some(a) ==> a >= 0)
    &&& (f & 0x04 == 0 ==> k.pegouts.len() == 0)
    &&& k.pegouts.len() <= u64::MAX
    &&& (forall|i: int| 0 <= i < k.pegouts.len() ==> pegout_coin_well_formed(#[trigger] k.pegouts[i]))
    &&& (f & 0x08 != 0) == k.lock_height is Some
    &&& (f & 0x10 != 0) == k.stealth_excess is Some
    &&& (k.stealth_excess matches Some(c) ==> c.len() == 33)
    &&& (f & 0x20 == 0 ==> k.extra_data.len() == 0)
    &&& k.extra_data.len() <= u64::MAX
    &&& k.excess.len() == 33
    &&& k.signature.len() == 64
}

pub open spec fn kernel_well_formed(k: KernelModel) -> bool {
    &&& kernel_fields_agree(k)
    &&& (k.stealth_excess matches Some(c) ==> is_valid_public_key(c))
}

pub(crate) fn read_opt_pegouts(data: &[u8], pos: usize, present: bool) -> (res: Result<(Vec<PegOutCoin>, usize), DecodeError>)
    requires
        pos <= data@.len(),
    ensures
        decoded_vec_as(res, pos as int, parse_opt_pegouts(data@.skip(pos as int), present)),
        res matches Ok((_, end)) ==> pos <= end <= data@.len(),
{
    if !present {
        let v: Vec<PegOutCoin> = Vec::new();
        assert(models(v@) =~= Seq::<PegOutCoinModel>::empty());
        reveal(parse_opt_pegouts);
        return Ok((v, pos));
    }
    reveal(parse_opt_pegouts);
    // No up-front reservation: the count is attacker-controlled, and each coin must be read from
    // the input, so a count beyond what the input holds ends in an end-of-input error.
    decode_vec::<PegOutCoin>(data, pos)
}

pub(crate) fn read_opt_lock_height(data: &[u8], pos: usize, present: bool) -> (res: Result<(Option<u32>, usize), DecodeError>)
    requires
        pos <= data@.len(),
    ensures
        decoded_as(res, pos as int, parse_opt_lock_height(data@.skip(pos as int), present)),
        res matches Ok((_, end)) ==> pos <= end <= data@.len(),
{
    if !present {
        return Ok((None, pos));
    }
    // Litecoin Core stores the lock height as a varint; values beyond u32 are malformed.
    let (raw, p) = read_amount(data, pos)?;
    if raw < 0 || raw > u32::MAX as i64 {
        return Err(DecodeError::ParseFailed(ParseFailure::LockHeightOutOfRange));
    }
    Ok((Some(raw as u32), p))
}

impl Wire for Kernel {
    open spec fn spec_parse(s: Seq<u8>) -> SpecParse<KernelModel> {
        parse_kernel(s)
    }

    open spec fn spec_encode(m: KernelModel) -> EncodeOutcome {
        encode_kernel(m)
    }

    open spec fn spec_well_formed(m: KernelModel) -> bool {
        kernel_well_formed(m)
    }

    #[verifier::rlimit(40)]
    fn consensus_decode(data: &[u8], pos: usize) -> (res: Result<(Kernel, usize), DecodeError>) {
        let ghost s = data@.skip(pos as int);
        let (features, p0) = read_u8(data, pos)?;
        let ghost acc = kernel_start(features);
        assert(parse_kernel(s) == kernel_fee_stage(s, acc, (p0 - pos) as nat));
        let (fee, p1) = match read_opt_amount(data, p0, features & 0x01 != 0) {
            Ok(r) => r,
            Err(e) => {
                assert(parse_kernel(s) == Err::<(KernelModel, nat), DecodeError>(e)) by {
                    reveal(kernel_fee_stage);
                }
                return Err(e);
            },
        };
        let ghost acc = KernelModel { fee, ..acc };
        assert(parse_kernel(s) == kernel_pegin_stage(s, acc, (p1 - pos) as nat)) by {
            reveal(kernel_fee_stage);
        }
        let (pegin, p2) = match read_opt_amount(data, p1, features & 0x02 != 0) {
            Ok(r) => r,
            Err(e) => {
                assert(parse_kernel(s) == Err::<(KernelModel, nat), DecodeError>(e)) by {
                    reveal(kernel_pegin_stage);
                }
                return Err(e);
            },
        };
        let ghost acc = KernelModel { pegin, ..acc };
        assert(parse_kernel(s) == kernel_pegouts_stage(s, acc, (p2 - pos) as nat)) by {
            reveal(kernel_pegin_stage);
        }
        let (pegouts, p3) = match read_opt_pegouts(data, p2, features & 0x04 != 0) {
            Ok(r) => r,
            Err(e) => {
                assert(parse_kernel(s) == Err::<(KernelModel, nat), DecodeError>(e)) by {
                    reveal(kernel_pegouts_stage);
                }
                return Err(e);
            },
        };
        let ghost acc = KernelModel { pegouts: models(pegouts@), ..acc };
        assert(parse_kernel(s) == kernel_lock_height_stage(s, acc, (p3 - pos) as nat)) by {
            reveal(kernel_pegouts_stage);
        }
        let (lock_height, p4) = match read_opt_lock_height(data, p3, features & 0x08 != 0) {
            Ok(r) => r,
            Err(e) => {
                assert(parse_kernel(s) == Err::<(KernelModel, nat), DecodeError>(e)) by {
                    reveal(kernel_lock_height_stage);
                }
                return Err(e);
            },
        };
        let ghost acc = KernelModel { lock_height, ..acc };
        assert(parse_kernel(s) == kernel_stealth_stage(s, acc, (p4 - pos) as nat)) by {
            reveal(kernel_lock_height_stage);
        }
        let (stealth_excess, p5) = match read_opt_key(
            data,
            p4,
            features & 0x10 != 0,
            ParseFailure::InvalidStealthExcess,
        ) {
            Ok(r) => r,
            Err(e) => {
                assert(parse_kernel(s) == Err::<(KernelModel, nat), DecodeError>(e)) by {
                    reveal(kernel_stealth_stage);
                }
                return Err(e);
            },
        };
        let ghost acc = KernelModel { stealth_excess: opt_key_model(stealth_excess), ..acc };
        assert(parse_kernel(s) == kernel_extra_stage(s, acc, (p5 - pos) as nat)) by {
            reveal(kernel_stealth_stage);
        }
        let (extra_data, p6) = match read_opt_byte_vec(data, p5, features & 0x20 != 0) {
            Ok(r) => r,
            Err(e) => {
                assert(parse_kernel(s) == Err::<(KernelModel, nat), DecodeError>(e)) by {
                    reveal(kernel_extra_stage);
                }
                return Err(e);
            },
        };
        let ghost acc = KernelModel { extra_data: extra_data@, ..acc };
        assert(parse_kernel(s) == kernel_excess_stage(s, acc, (p6 - pos) as nat)) by {
            reveal(kernel_extra_stage);
        }
        let (excess, p7) = match read_array::<33>(data, p6) {
            Ok(r) => r,
            Err(e) => {
                assert(parse_kernel(s) == Err::<(KernelModel, nat), DecodeError>(e)) by {
                    reveal(kernel_excess_stage);
                }
                return Err(e);
            },
        };
        let ghost acc = KernelModel { excess: excess@, ..acc };
        assert(parse_kernel(s) == kernel_signature_stage(s, acc, (p7 - pos) as nat)) by {
            reveal(kernel_excess_stage);
        }
        let (signature, p8) = match read_array::<64>(data, p7) {
            Ok(r) => r,
            Err(e) => {
                assert(parse_kernel(s) == Err::<(KernelModel, nat), DecodeError>(e)) by {
                    reveal(kernel_signature_stage);
                }
                return Err(e);
            },
        };
        let ghost acc = KernelModel { signature: signature@, ..acc };
        assert(parse_kernel(s) == Ok::<(KernelModel, nat), DecodeError>((acc, (p8 - pos) as nat))) by {
            reveal(kernel_signature_stage);
        }
        let kernel = Kernel {
            features,
            fee,
            pegin,
            pegouts,
            lock_height,
            stealth_excess,
            extra_data,
            excess,
            signature,
        };
        assert(kernel@ =~= acc);
        Ok((kernel, p8))
    }

    fn consensus_encode(&self, out: &mut Vec<u8>) -> (res: Result<usize, EncodeError>)
        ensures
            kernel_fields_agree(self@) ==> res is Ok && parse_kernel(final(out)@.skip(old(out)@.len() as int)) == Ok::<
                (KernelModel, nat),
                DecodeError,
            >((self@, (final(out)@.len() - old(out)@.len()) as nat)),
    {
        if let Some(pk) = &self.stealth_excess {
            proof {
                use_type_invariant(pk);
            }
        }
        let ghost before = out@;
        let res = self.write_wire(out);
        proof {
            if kernel_fields_agree(self@) {
                lemma_kernel_roundtrip(self@, Seq::empty());
                assert(out@.skip(before.len() as int) =~= encode_kernel(self@)->Ok_0 + Seq::<u8>::empty());
            }
        }
        res
    }

    proof fn lemma_roundtrip(m: KernelModel, rest: Seq<u8>) {
        lemma_kernel_roundtrip(m, rest);
    }
}

impl Kernel {
    /// Writes the kernel's fields in wire order.
    fn write_wire(&self, out: &mut Vec<u8>) -> (res: Result<usize, EncodeError>)
        ensures
            encoded_as(res, old(out)@, final(out)@, encode_kernel(self@)),
    {
        let ghost total = encode_kernel(self@);
        let ghost part = kernel_parts(self@);
        let start = out.len();
        proof {
            lemma_enc_parts_begin(total, part, 9, out@);
            assert(out@.take(start as int) =~= old(out)@);
        }
        let f = self.features;
        let ghost before = out@;
        let r = write_u8_part(f, out);
        proof {
            assert(wrote(r, before, out@, part(0))) by {
                reveal(kernel_part);
            }
            lemma_enc_parts_advance(total, part, 0, 9, start as int, before, out@, r);
        }
        if let Err(e) = r {
            proof {
                lemma_enc_parts_stopped(total, e, start as int, old(out)@, out@);
            }
            return Err(e);
        }
        let ghost before = out@;
        let r = write_opt_amount(f & 0x01 != 0, self.fee, EncodeError::KernelFeeMissing, out);
        proof {
            assert(wrote(r, before, out@, part(1))) by {
                reveal(kernel_part);
            }
            lemma_enc_parts_advance(total, part, 1, 9, start as int, before, out@, r);
        }
        if let Err(e) = r {
            proof {
                lemma_enc_parts_stopped(total, e, start as int, old(out)@, out@);
            }
            return Err(e);
        }
        let ghost before = out@;
        let r = write_opt_amount(f & 0x02 != 0, self.pegin, EncodeError::KernelPeginMissing, out);
        proof {
            assert(wrote(r, before, out@, part(2))) by {
                reveal(kernel_part);
            }
            lemma_enc_parts_advance(total, part, 2, 9, start as int, before, out@, r);
        }
        if let Err(e) = r {
            proof {
                lemma_enc_parts_stopped(total, e, start as int, old(out)@, out@);
            }
            return Err(e);
        }
        let ghost before = out@;
        let r = if f & 0x04 != 0 {
            write_vec_part(&self.pegouts, out)
        } else {
            Ok(())
        };
        proof {
            assert(wrote(r, before, out@, part(3))) by {
                reveal(kernel_part);
            }
            lemma_enc_parts_advance(total, part, 3, 9, start as int, before, out@, r);
        }
        if let Err(e) = r {
            proof {
                lemma_enc_parts_stopped(total, e, start as int, old(out)@, out@);
            }
            return Err(e);
        }
        let ghost before = out@;
        let r = write_opt_amount(
            f & 0x08 != 0,
            match self.lock_height {
                Some(h) => Some(h as i64),
                None => None,
            },
            EncodeError::KernelLockHeightMissing,
            out,
        );
        proof {
            assert(wrote(r, before, out@, part(4))) by {
                reveal(kernel_part);
            }
            lemma_enc_parts_advance(total, part, 4, 9, start as int, before, out@, r);
        }
        if let Err(e) = r {
            proof {
                lemma_enc_parts_stopped(total, e, start as int, old(out)@, out@);
            }
            return Err(e);
        }
        let ghost before = out@;
        let r = write_opt_key(f & 0x10 != 0, &self.stealth_excess, EncodeError::KernelStealthExcessMissing, out);
        proof {
            assert(wrote(r, before, out@, part(5))) by {
                reveal(kernel_part);
            }
            lemma_enc_parts_advance(total, part, 5, 9, start as int, before, out@, r);
        }
        if let Err(e) = r {
            proof {
                lemma_enc_parts_stopped(total, e, start as int, old(out)@, out@);
            }
            return Err(e);
        }
        let ghost before = out@;
        let r = write_opt_byte_vec(f & 0x20 != 0, &self.extra_data, out);
        proof {
            assert(wrote(r, before, out@, part(6))) by {
                reveal(kernel_part);
            }
            lemma_enc_parts_advance(total, part, 6, 9, start as int, before, out@, r);
        }
        if let Err(e) = r {
            proof {
                lemma_enc_parts_stopped(total, e, start as int, old(out)@, out@);
            }
            return Err(e);
        }
        let ghost before = out@;
        let r = write_array_part(&self.excess, out);
        proof {
            assert(wrote(r, before, out@, part(7))) by {
                reveal(kernel_part);
            }
            lemma_enc_parts_advance(total, part, 7, 9, start as int, before, out@, r);
        }
        if let Err(e) = r {
            proof {
                lemma_enc_parts_stopped(total, e, start as int, old(out)@, out@);
            }
            return Err(e);
        }
        let ghost before = out@;
        let r = write_array_part(&self.signature, out);
        proof {
            assert(wrote(r, before, out@, part(8))) by {
                reveal(kernel_part);
            }
            lemma_enc_parts_advance(total, part, 8, 9, start as int, before, out@, r);
        }
        if let Err(e) = r {
            proof {
                lemma_enc_parts_stopped(total, e, start as int, old(out)@, out@);
            }
            return Err(e);
        }
        proof {
            lemma_enc_parts_end(total, part, 9, start as int, old(out)@, out@);
        }
        Ok(out.len() - start)
    }
}

/// Skipping part `i` of concatenated parts at its offset leaves the parts after it.
proof fn lemma_skip_part(s: Seq<u8>, p: nat, bytes: spec_fn(nat) -> Seq<u8>, i: nat, n: nat, rest: Seq<u8>)
    requires
        i < n,
        p <= s.len(),
        s.skip(p as int) == concat_parts(bytes, i, n) + rest,
    ensures
        p + bytes(i).len() <= s.len(),
        s.skip(p as int) == bytes(i) + (concat_parts(bytes, i + 1, n) + rest),
        s.skip((p + bytes(i).len()) as int) == concat_parts(bytes, i + 1, n) + rest,
{
    let t = concat_parts(bytes, i + 1, n) + rest;
    assert(concat_parts(bytes, i, n) == bytes(i) + concat_parts(bytes, i + 1, n));
    assert(concat_parts(bytes, i, n) + rest =~= bytes(i) + t);
    assert(s.skip(p as int).skip(bytes(i).len() as int) =~= t);
    assert(s.skip(p as int).skip(bytes(i).len() as int) =~= s.skip((p + bytes(i).len()) as int));
}

/// The bytes of part `i` of a well-formed kernel's encoding.
pub open spec fn kernel_part_bytes(k: KernelModel, i: nat) -> Seq<u8> {
    let f = k.features;
    if i == 0 {
        seq![f]
    } else if i == 1 {
        if f & 0x01 != 0 { amount_bytes(k.fee->0) } else { Seq::empty() }
    } else if i == 2 {
        if f & 0x02 != 0 { amount_bytes(k.pegin->0) } else { Seq::empty() }
    } else if i == 3 {
        if f & 0x04 != 0 { encode_vec::<PegOutCoin>(k.pegouts)->Ok_0 } else { Seq::empty() }
    } else if i == 4 {
        if f & 0x08 != 0 { amount_bytes(k.lock_height->0 as i64) } else { Seq::empty() }
    } else if i == 5 {
        if f & 0x10 != 0 { k.stealth_excess->0 } else { Seq::empty() }
    } else if i == 6 {
        opt_byte_vec_bytes(f & 0x20 != 0, k.extra_data)
    } else if i == 7 {
        k.excess
    } else {
        k.signature
    }
}

pub open spec fn kernel_part_bytes_fn(k: KernelModel) -> spec_fn(nat) -> Seq<u8> {
    |i: nat| kernel_part_bytes(k, i)
}

/// A well-formed kernel's encoding succeeds and is the concatenation of its parts.
pub proof fn lemma_kernel_encodes(k: KernelModel)
    requires
        kernel_well_formed(k),
    ensures
        encode_kernel(k) == Ok::<Seq<u8>, (Seq<u8>, EncodeError)>(
            concat_parts(kernel_part_bytes_fn(k), 0, 9),
        ),
{
    if k.features & 0x04 != 0 {
        lemma_vec_roundtrip::<PegOutCoin>(k.pegouts, Seq::empty());
    }
    assert forall|j: nat| 0 <= j < 9 implies #[trigger] kernel_parts(k)(j) == Ok::<Seq<u8>, (Seq<u8>, EncodeError)>(
        kernel_part_bytes_fn(k)(j),
    ) by {
        reveal(kernel_part);
    }
    lemma_enc_parts_all(kernel_parts(k), kernel_part_bytes_fn(k), 0, 9);
}

/// A well-formed kernel encodes, and its encoding reads back as the same kernel.
pub proof fn lemma_kernel_roundtrip(k: KernelModel, rest: Seq<u8>)
    requires
        kernel_well_formed(k),
    ensures
        encode_kernel(k) is Ok,
        parse_kernel(encode_kernel(k)->Ok_0 + rest) == Ok::<(KernelModel, nat), DecodeError>(
            (k, encode_kernel(k)->Ok_0.len()),
        ),
{
    lemma_kernel_encodes(k);
    let f = k.features;
    let bytes = kernel_part_bytes_fn(k);
    let s = concat_parts(bytes, 0, 9) + rest;
    // `r(i)` is what remains from part `i` on; part `i` starts at offset `p(i)`.
    let r = |i: nat| concat_parts(bytes, i, 9) + rest;
    let p1 = bytes(0).len();
    let p2 = p1 + bytes(1).len();
    let p3 = p2 + bytes(2).len();
    let p4 = p3 + bytes(3).len();
    let p5 = p4 + bytes(4).len();
    let p6 = p5 + bytes(5).len();
    let p7 = p6 + bytes(6).len();
    let p8 = p7 + bytes(7).len();
    let p9 = p8 + bytes(8).len();
    assert(s.skip(0) =~= r(0));
    lemma_skip_part(s, 0, bytes, 0, 9, rest);
    lemma_skip_part(s, p1, bytes, 1, 9, rest);
    lemma_skip_part(s, p2, bytes, 2, 9, rest);
    lemma_skip_part(s, p3, bytes, 3, 9, rest);
    lemma_skip_part(s, p4, bytes, 4, 9, rest);
    lemma_skip_part(s, p5, bytes, 5, 9, rest);
    lemma_skip_part(s, p6, bytes, 6, 9, rest);
    lemma_skip_part(s, p7, bytes, 7, 9, rest);
    lemma_skip_part(s, p8, bytes, 8, 9, rest);
    assert(concat_parts(bytes, 9, 9) =~= Seq::<u8>::empty());
    assert(r(9) =~= rest);
    assert(s.len() == p9 + rest.len());
    assert(concat_parts(bytes, 0, 9).len() == p9);
    assert(s.skip(p9 as int) == rest);
    let a0 = kernel_start(f);
    let a1 = KernelModel { fee: k.fee, ..a0 };
    let a2 = KernelModel { pegin: k.pegin, ..a1 };
    let a3 = KernelModel { pegouts: k.pegouts, ..a2 };
    let a4 = KernelModel { lock_height: k.lock_height, ..a3 };
    let a5 = KernelModel { stealth_excess: k.stealth_excess, ..a4 };
    let a6 = KernelModel { extra_data: k.extra_data, ..a5 };
    let a7 = KernelModel { excess: k.excess, ..a6 };
    let a8 = KernelModel { signature: k.signature, ..a7 };
    assert(parse_kernel(s) == kernel_fee_stage(s, a0, p1));
    assert(kernel_fee_stage(s, a0, p1) == kernel_pegin_stage(s, a1, p2)) by {
        reveal(kernel_fee_stage);
        if f & 0x01 != 0 {
            lemma_amount_roundtrip(k.fee->0, r(2));
        }
    }
    assert(kernel_pegin_stage(s, a1, p2) == kernel_pegouts_stage(s, a2, p3)) by {
        reveal(kernel_pegin_stage);
        if f & 0x02 != 0 {
            lemma_amount_roundtrip(k.pegin->0, r(3));
        }
    }
    assert(kernel_pegouts_stage(s, a2, p3) == kernel_lock_height_stage(s, a3, p4)) by {
        reveal(kernel_pegouts_stage);
        reveal(parse_opt_pegouts);
        if f & 0x04 != 0 {
            lemma_vec_roundtrip::<PegOutCoin>(k.pegouts, r(4));
        } else {
            assert(k.pegouts =~= Seq::<PegOutCoinModel>::empty());
        }
    }
    assert(kernel_lock_height_stage(s, a3, p4) == kernel_stealth_stage(s, a4, p5)) by {
        reveal(kernel_lock_height_stage);
        if f & 0x08 != 0 {
            lemma_amount_roundtrip(k.lock_height->0 as i64, r(5));
        }
    }
    assert(kernel_stealth_stage(s, a4, p5) == kernel_extra_stage(s, a5, p6)) by {
        reveal(kernel_stealth_stage);
        if f & 0x10 != 0 {
            lemma_key_roundtrip(k.stealth_excess->0, ParseFailure::InvalidStealthExcess, r(6));
        }
    }
    assert(kernel_extra_stage(s, a5, p6) == kernel_excess_stage(s, a6, p7)) by {
        reveal(kernel_extra_stage);
        if f & 0x20 != 0 {
            lemma_byte_vec_roundtrip(k.extra_data, r(7));
        } else {
            assert(k.extra_data =~= Seq::<u8>::empty());
        }
    }
    assert(kernel_excess_stage(s, a6, p7) == kernel_signature_stage(s, a7, p8)) by {
        reveal(kernel_excess_stage);
        lemma_fixed_roundtrip(k.excess, r(8));
    }
    assert(kernel_signature_stage(s, a7, p8) == Ok::<(KernelModel, nat), DecodeError>((a8, p9))) by {
        reveal(kernel_signature_stage);
        lemma_fixed_roundtrip(k.signature, rest);
    }
    assert(a8 =~= k);
}

// ----- Inputs -----------------------------------------------------------------------------------

/// An MWEB input (spending a previously-created [`Output`]).
#[derive(Clone, PartialEq, Eq, PartialOrd, Ord, Debug, Hash)]
pub struct Input {
    pub features: u8,
    pub output_id: [u8; 32],
    pub commitment: [u8; 33],
    pub input_public_key: Option<PublicKey>,
    pub output_public_key: PublicKey,
    pub extra_data: Vec<u8>,
    pub signature: [u8; 64],
}

#[verifier::ext_equal]
pub struct InputModel {
    pub features: u8,
    pub output_id: Seq<u8>,
    pub commitment: Seq<u8>,
    pub input_public_key: Option<Seq<u8>>,
    pub output_public_key: Seq<u8>,
    pub extra_data: Seq<u8>,
    pub signature: Seq<u8>,
}

impl View for Input {
    type V = InputModel;

    open spec fn view(&self) -> InputModel {
        InputModel {
            features: self.features,
            output_id: self.output_id@,
            commitment: self.commitment@,
            input_public_key: opt_key_model(self.input_public_key),
            output_public_key: self.output_public_key@,
            extra_data: self.extra_data@,
            signature: self.signature@,
        }
    }
}

/// An input: the features byte, the spent output's id and commitment, the output public key,
/// the input public key when bit 0x01 is set, extra data when bit 0x02 is set, and the signature.
pub open spec fn parse_input(s: Seq<u8>) -> SpecParse<InputModel> {
    input_stage_0(s, arbitrary(), 0)
}

#[verifier::opaque]
pub open spec fn input_stage_0(s: Seq<u8>, acc: InputModel, p: nat) -> SpecParse<InputModel> {
    match parse_u8(s.skip(p as int)) {
        Err(e) => Err(e),
        Ok((v, n)) => input_stage_1(s, InputModel { features: v, ..acc }, p + n),
    }
}

#[verifier::opaque]
pub open spec fn input_stage_1(s: Seq<u8>, acc: InputModel, p: nat) -> SpecParse<InputModel> {
    match parse_fixed(s.skip(p as int), 32) {
        Err(e) => Err(e),
        Ok((v, n)) => input_stage_2(s, InputModel { output_id: v, ..acc }, p + n),
    }
}

#[verifier::opaque]
pub open spec fn input_stage_2(s: Seq<u8>, acc: InputModel, p: nat) -> SpecParse<InputModel> {
    match parse_fixed(s.skip(p as int), 33) {
        Err(e) => Err(e),
        Ok((v, n)) => input_stage_3(s, InputModel { commitment: v, ..acc }, p + n),
    }
}

#[verifier::opaque]
pub open spec fn input_stage_3(s: Seq<u8>, acc: InputModel, p: nat) -> SpecParse<InputModel> {
    match parse_key(s.skip(p as int), ParseFailure::InvalidInputOutputPublicKey) {
        Err(e) => Err(e),
        Ok((v, n)) => input_stage_4(s, InputModel { output_public_key: v, ..acc }, p + n),
    }
}

#[verifier::opaque]
pub open spec fn input_stage_4(s: Seq<u8>, acc: InputModel, p: nat) -> SpecParse<InputModel> {
    match parse_opt_key(s.skip(p as int), acc.features & 0x01 != 0, ParseFailure::InvalidInputPublicKey) {
        Err(e) => Err(e),
        Ok((v, n)) => input_stage_5(s, InputModel { input_public_key: v, ..acc }, p + n),
    }
}

#[verifier::opaque]
pub open spec fn input_stage_5(s: Seq<u8>, acc: InputModel, p: nat) -> SpecParse<InputModel> {
    match parse_opt_byte_vec(s.skip(p as int), acc.features & 0x02 != 0) {
        Err(e) => Err(e),
        Ok((v, n)) => input_stage_6(s, InputModel { extra_data: v, ..acc }, p + n),
    }
}

#[verifier::opaque]
pub open spec fn input_stage_6(s: Seq<u8>, acc: InputModel, p: nat) -> SpecParse<InputModel> {
    match parse_fixed(s.skip(p as int), 64) {
        Err(e) => Err(e),
        Ok((v, n)) => Ok((InputModel { signature: v, ..acc }, p + n)),
    }
}

/// Part `i` of the encoding of a Input.
#[verifier::opaque]
pub open spec fn input_part(m: InputModel, i: nat) -> EncodeOutcome {
    if i == 0 {
        Ok(seq![m.features])
    } else if i == 1 {
        Ok(m.output_id)
    } else if i == 2 {
        Ok(m.commitment)
    } else if i == 3 {
        Ok(m.output_public_key)
    } else if i == 4 {
        enc_opt_key(m.features & 0x01 != 0, m.input_public_key, EncodeError::InputPublicKeyMissing)
    } else if i == 5 {
        Ok(opt_byte_vec_bytes(m.features & 0x02 != 0, m.extra_data))
    } else {
        Ok(m.signature)
    }
}

pub open spec fn input_parts(m: InputModel) -> spec_fn(nat) -> EncodeOutcome {
    |i: nat| input_part(m, i)
}

pub open spec fn encode_input(m: InputModel) -> EncodeOutcome {
    enc_parts(input_parts(m), 0, 7)
}

/// The inputs whose encoding reads back as themselves: the input public key is present exactly
/// when bit 0x01 is set, extra data only when bit 0x02 is set, keys are valid, sizes fit.
/// The input's fields agree with its feature bits and sizes: the input key is present exactly
/// when bit `0x01` is set, extra data is empty without bit `0x02`, and the fixed fields have
/// their sizes.
pub open spec fn input_fields_agree(m: InputModel) -> bool {
    &&& m.output_id.len() == 32
    &&& m.commitment.len() == 33
    &&& m.output_public_key.len() == 33
    &&& (m.features & 0x01 != 0) == m.input_public_key is Some
    &&& (m.input_public_key matches Some(c) ==> c.len() == 33)
    &&& (m.features & 0x02 == 0 ==> m.extra_data.len() == 0)
    &&& m.extra_data.len() <= u64::MAX
    &&& m.signature.len() == 64
}

pub open spec fn input_well_formed(m: InputModel) -> bool {
    &&& input_fields_agree(m)
    &&& is_valid_public_key(m.output_public_key)
    &&& (m.input_public_key matches Some(c) ==> is_valid_public_key(c))
}

/// The bytes of part `i` of the encoding of a well-formed Input.
pub open spec fn input_part_bytes(m: InputModel, i: nat) -> Seq<u8> {
    if i == 0 {
        seq![m.features]
    } else if i == 1 {
        m.output_id
    } else if i == 2 {
        m.commitment
    } else if i == 3 {
        m.output_public_key
    } else if i == 4 {
        if m.features & 0x01 != 0 { m.input_public_key->0 } else { Seq::empty() }
    } else if i == 5 {
        opt_byte_vec_bytes(m.features & 0x02 != 0, m.extra_data)
    } else {
        m.signature
    }
}

pub open spec fn input_part_bytes_fn(m: InputModel) -> spec_fn(nat) -> Seq<u8> {
    |i: nat| input_part_bytes(m, i)
}

impl Wire for Input {
    open spec fn spec_parse(s: Seq<u8>) -> SpecParse<InputModel> {
        parse_input(s)
    }

    open spec fn spec_encode(m: InputModel) -> EncodeOutcome {
        encode_input(m)
    }

    open spec fn spec_well_formed(m: InputModel) -> bool {
        input_well_formed(m)
    }

    fn consensus_decode(data: &[u8], pos: usize) -> (res: Result<(Input, usize), DecodeError>) {
        let ghost s = data@.skip(pos as int);
        let ghost acc: InputModel = arbitrary();
        let p = pos;
        assert(parse_input(s) == input_stage_0(s, acc, (p - pos) as nat));
        let (features, p) = match read_u8(data, p) {
            Ok(r) => r,
            Err(e) => {
                assert(parse_input(s) == Err::<(InputModel, nat), DecodeError>(e)) by {
                    reveal(input_stage_0);
                }
                return Err(e);
            },
        };
        proof {
            let a2 = InputModel { features: features, ..acc };
            assert(parse_input(s) == input_stage_1(s, a2, (p - pos) as nat)) by {
                reveal(input_stage_0);
            }
        }
        let ghost acc = InputModel { features: features, ..acc };
        assert(parse_input(s) == input_stage_1(s, acc, (p - pos) as nat));
        let (output_id, p) = match read_array::<32>(data, p) {
            Ok(r) => r,
            Err(e) => {
                assert(parse_input(s) == Err::<(InputModel, nat), DecodeError>(e)) by {
                    reveal(input_stage_1);
                }
                return Err(e);
            },
        };
        proof {
            let a2 = InputModel { output_id: output_id@, ..acc };
            assert(parse_input(s) == input_stage_2(s, a2, (p - pos) as nat)) by {
                reveal(input_stage_1);
            }
        }
        let ghost acc = InputModel { output_id: output_id@, ..acc };
        assert(parse_input(s) == input_stage_2(s, acc, (p - pos) as nat));
        let (commitment, p) = match read_array::<33>(data, p) {
            Ok(r) => r,
            Err(e) => {
                assert(parse_input(s) == Err::<(InputModel, nat), DecodeError>(e)) by {
                    reveal(input_stage_2);
                }
                return Err(e);
            },
        };
        proof {
            let a2 = InputModel { commitment: commitment@, ..acc };
            assert(parse_input(s) == input_stage_3(s, a2, (p - pos) as nat)) by {
                reveal(input_stage_2);
            }
        }
        let ghost acc = InputModel { commitment: commitment@, ..acc };
        assert(parse_input(s) == input_stage_3(s, acc, (p - pos) as nat));
        let (output_public_key, p) = match read_key(data, p, ParseFailure::InvalidInputOutputPublicKey) {
            Ok(r) => r,
            Err(e) => {
                assert(parse_input(s) == Err::<(InputModel, nat), DecodeError>(e)) by {
                    reveal(input_stage_3);
                }
                return Err(e);
            },
        };
        proof {
            let a2 = InputModel { output_public_key: output_public_key@, ..acc };
            assert(parse_input(s) == input_stage_4(s, a2, (p - pos) as nat)) by {
                reveal(input_stage_3);
            }
        }
        let ghost acc = InputModel { output_public_key: output_public_key@, ..acc };
        assert(parse_input(s) == input_stage_4(s, acc, (p - pos) as nat));
        let (input_public_key, p) = match read_opt_key(data, p, features & 0x01 != 0, ParseFailure::InvalidInputPublicKey) {
            Ok(r) => r,
            Err(e) => {
                assert(parse_input(s) == Err::<(InputModel, nat), DecodeError>(e)) by {
                    reveal(input_stage_4);
                }
                return Err(e);
            },
        };
        proof {
            let a2 = InputModel { input_public_key: opt_key_model(input_public_key), ..acc };
            assert(parse_input(s) == input_stage_5(s, a2, (p - pos) as nat)) by {
                reveal(input_stage_4);
            }
        }
        let ghost acc = InputModel { input_public_key: opt_key_model(input_public_key), ..acc };
        assert(parse_input(s) == input_stage_5(s, acc, (p - pos) as nat));
        let (extra_data, p) = match read_opt_byte_vec(data, p, features & 0x02 != 0) {
            Ok(r) => r,
            Err(e) => {
                assert(parse_input(s) == Err::<(InputModel, nat), DecodeError>(e)) by {
                    reveal(input_stage_5);
                }
                return Err(e);
            },
        };
        proof {
            let a2 = InputModel { extra_data: extra_data@, ..acc };
            assert(parse_input(s) == input_stage_6(s, a2, (p - pos) as nat)) by {
                reveal(input_stage_5);
            }
        }
        let ghost acc = InputModel { extra_data: extra_data@, ..acc };
        assert(parse_input(s) == input_stage_6(s, acc, (p - pos) as nat));
        let (signature, p) = match read_array::<64>(data, p) {
            Ok(r) => r,
            Err(e) => {
                assert(parse_input(s) == Err::<(InputModel, nat), DecodeError>(e)) by {
                    reveal(input_stage_6);
                }
                return Err(e);
            },
        };
        let ghost acc = InputModel { signature: signature@, ..acc };
        assert(parse_input(s) == Ok::<(InputModel, nat), DecodeError>((acc, (p - pos) as nat))) by {
            reveal(input_stage_6);
        }
        let v = Input { features, output_id, commitment, input_public_key, output_public_key, extra_data, signature };
        assert(v@ =~= acc);
        Ok((v, p))
    }

    fn consensus_encode(&self, out: &mut Vec<u8>) -> (res: Result<usize, EncodeError>)
        ensures
            input_fields_agree(self@) ==> res is Ok && parse_input(final(out)@.skip(old(out)@.len() as int)) == Ok::<
                (InputModel, nat),
                DecodeError,
            >((self@, (final(out)@.len() - old(out)@.len()) as nat)),
    {
        proof {
            use_type_invariant(&self.output_public_key);
        }
        if let Some(pk) = &self.input_public_key {
            proof {
                use_type_invariant(pk);
            }
        }
        let ghost before = out@;
        let res = self.write_wire(out);
        proof {
            if input_fields_agree(self@) {
                lemma_input_roundtrip(self@, Seq::empty());
                assert(out@.skip(before.len() as int) =~= encode_input(self@)->Ok_0 + Seq::<u8>::empty());
            }
        }
        res
    }

    proof fn lemma_roundtrip(m: InputModel, rest: Seq<u8>) {
        lemma_input_roundtrip(m, rest);
    }
}

impl Input {
    /// Writes the input's fields in wire order.
    fn write_wire(&self, out: &mut Vec<u8>) -> (res: Result<usize, EncodeError>)
        ensures
            encoded_as(res, old(out)@, final(out)@, encode_input(self@)),
    {
        let ghost total = encode_input(self@);
        let ghost part = input_parts(self@);
        let start = out.len();
        proof {
            lemma_enc_parts_begin(total, part, 7, out@);
            assert(out@.take(start as int) =~= old(out)@);
        }
        let ghost before = out@;
        let r = write_u8_part(self.features, out);
        proof {
            assert(wrote(r, before, out@, part(0))) by {
                reveal(input_part);
            }
            lemma_enc_parts_advance(total, part, 0, 7, start as int, before, out@, r);
        }
        if let Err(e) = r {
            proof {
                lemma_enc_parts_stopped(total, e, start as int, old(out)@, out@);
            }
            return Err(e);
        }
        let ghost before = out@;
        let r = write_array_part(&self.output_id, out);
        proof {
            assert(wrote(r, before, out@, part(1))) by {
                reveal(input_part);
            }
            lemma_enc_parts_advance(total, part, 1, 7, start as int, before, out@, r);
        }
        if let Err(e) = r {
            proof {
                lemma_enc_parts_stopped(total, e, start as int, old(out)@, out@);
            }
            return Err(e);
        }
        let ghost before = out@;
        let r = write_array_part(&self.commitment, out);
        proof {
            assert(wrote(r, before, out@, part(2))) by {
                reveal(input_part);
            }
            lemma_enc_parts_advance(total, part, 2, 7, start as int, before, out@, r);
        }
        if let Err(e) = r {
            proof {
                lemma_enc_parts_stopped(total, e, start as int, old(out)@, out@);
            }
            return Err(e);
        }
        let ghost before = out@;
        let r = write_key_part(&self.output_public_key, out);
        proof {
            assert(wrote(r, before, out@, part(3))) by {
                reveal(input_part);
            }
            lemma_enc_parts_advance(total, part, 3, 7, start as int, before, out@, r);
        }
        if let Err(e) = r {
            proof {
                lemma_enc_parts_stopped(total, e, start as int, old(out)@, out@);
            }
            return Err(e);
        }
        let ghost before = out@;
        let r = write_opt_key(self.features & 0x01 != 0, &self.input_public_key, EncodeError::InputPublicKeyMissing, out);
        proof {
            assert(wrote(r, before, out@, part(4))) by {
                reveal(input_part);
            }
            lemma_enc_parts_advance(total, part, 4, 7, start as int, before, out@, r);
        }
        if let Err(e) = r {
            proof {
                lemma_enc_parts_stopped(total, e, start as int, old(out)@, out@);
            }
            return Err(e);
        }
        let ghost before = out@;
        let r = write_opt_byte_vec(self.features & 0x02 != 0, &self.extra_data, out);
        proof {
            assert(wrote(r, before, out@, part(5))) by {
                reveal(input_part);
            }
            lemma_enc_parts_advance(total, part, 5, 7, start as int, before, out@, r);
        }
        if let Err(e) = r {
            proof {
                lemma_enc_parts_stopped(total, e, start as int, old(out)@, out@);
            }
            return Err(e);
        }
        let ghost before = out@;
        let r = write_array_part(&self.signature, out);
        proof {
            assert(wrote(r, before, out@, part(6))) by {
                reveal(input_part);
            }
            lemma_enc_parts_advance(total, part, 6, 7, start as int, before, out@, r);
        }
        if let Err(e) = r {
            proof {
                lemma_enc_parts_stopped(total, e, start as int, old(out)@, out@);
            }
            return Err(e);
        }
        proof {
            lemma_enc_parts_end(total, part, 7, start as int, old(out)@, out@);
        }
        Ok(out.len() - start)
    }
}

/// A well-formed Input encodes as the concatenation of its parts.
pub proof fn lemma_input_encodes(m: InputModel)
    requires
        input_well_formed(m),
    ensures
        encode_input(m) == Ok::<Seq<u8>, (Seq<u8>, EncodeError)>(concat_parts(input_part_bytes_fn(m), 0, 7)),
{

    assert forall|j: nat| 0 <= j < 7 implies #[trigger] input_parts(m)(j) == Ok::<Seq<u8>, (Seq<u8>, EncodeError)>(
        input_part_bytes_fn(m)(j),
    ) by {
        reveal(input_part);
    }
    lemma_enc_parts_all(input_parts(m), input_part_bytes_fn(m), 0, 7);
}

/// A well-formed Input encodes, and its encoding reads back as the same value.
pub proof fn lemma_input_roundtrip(m: InputModel, rest: Seq<u8>)
    requires
        input_well_formed(m),
    ensures
        encode_input(m) is Ok,
        parse_input(encode_input(m)->Ok_0 + rest) == Ok::<(InputModel, nat), DecodeError>(
            (m, encode_input(m)->Ok_0.len()),
        ),
{
    lemma_input_encodes(m);
    let bytes = input_part_bytes_fn(m);
    let s = concat_parts(bytes, 0, 7) + rest;
    let r = |i: nat| concat_parts(bytes, i, 7) + rest;
    let p0: nat = 0;
    let p1 = p0 + bytes(0).len();
    let p2 = p1 + bytes(1).len();
    let p3 = p2 + bytes(2).len();
    let p4 = p3 + bytes(3).len();
    let p5 = p4 + bytes(4).len();
    let p6 = p5 + bytes(5).len();
    let p7 = p6 + bytes(6).len();
    assert(s.skip(0) =~= r(0));
    lemma_skip_part(s, p0, bytes, 0, 7, rest);
    lemma_skip_part(s, p1, bytes, 1, 7, rest);
    lemma_skip_part(s, p2, bytes, 2, 7, rest);
    lemma_skip_part(s, p3, bytes, 3, 7, rest);
    lemma_skip_part(s, p4, bytes, 4, 7, rest);
    lemma_skip_part(s, p5, bytes, 5, 7, rest);
    lemma_skip_part(s, p6, bytes, 6, 7, rest);
    assert(concat_parts(bytes, 7, 7) =~= Seq::<u8>::empty());
    assert(r(7) =~= rest);
    assert(s.len() == p7 + rest.len());
    let a0: InputModel = arbitrary();
    let a1 = InputModel { features: m.features, ..a0 };
    let a2 = InputModel { output_id: m.output_id, ..a1 };
    let a3 = InputModel { commitment: m.commitment, ..a2 };
    let a4 = InputModel { output_public_key: m.output_public_key, ..a3 };
    let a5 = InputModel { input_public_key: m.input_public_key, ..a4 };
    let a6 = InputModel { extra_data: m.extra_data, ..a5 };
    let a7 = InputModel { signature: m.signature, ..a6 };
    assert(input_stage_0(s, a0, p0) == input_stage_1(s, a1, p1)) by {
        reveal(input_stage_0);

    }
    assert(input_stage_1(s, a1, p1) == input_stage_2(s, a2, p2)) by {
        reveal(input_stage_1);
        lemma_fixed_roundtrip(m.output_id, r(2));
    }
    assert(input_stage_2(s, a2, p2) == input_stage_3(s, a3, p3)) by {
        reveal(input_stage_2);
        lemma_fixed_roundtrip(m.commitment, r(3));
    }
    assert(input_stage_3(s, a3, p3) == input_stage_4(s, a4, p4)) by {
        reveal(input_stage_3);
        lemma_key_roundtrip(m.output_public_key, ParseFailure::InvalidInputOutputPublicKey, r(4));
    }
    assert(input_stage_4(s, a4, p4) == input_stage_5(s, a5, p5)) by {
        reveal(input_stage_4);
        if m.features & 0x01 != 0 {
            lemma_key_roundtrip(m.input_public_key->0, ParseFailure::InvalidInputPublicKey, r(5));
        }
    }
    assert(input_stage_5(s, a5, p5) == input_stage_6(s, a6, p6)) by {
        reveal(input_stage_5);
        if m.features & 0x02 != 0 {
            lemma_byte_vec_roundtrip(m.extra_data, r(6));
        } else {
            assert(m.extra_data =~= Seq::<u8>::empty());
        }
    }
    assert(input_stage_6(s, a6, p6) == Ok::<(InputModel, nat), DecodeError>((a7, p7))) by {
        reveal(input_stage_6);
        lemma_fixed_roundtrip(m.signature, r(7));
    }
    assert(a7 =~= m);
}


// ----- Output messages ----------------------------------------------------------------------------

/// Standard "encrypted" fields embedded in an [`OutputMessage`].
#[derive(Clone, PartialEq, Eq, PartialOrd, Ord, Debug, Hash)]
pub struct OutputMessageStandardFields {
    pub key_exchange_pubkey: PublicKey,
    pub view_tag: u8,
    pub masked_value: u64,
    pub masked_nonce: [u8; 16],
}

#[verifier::ext_equal]
pub struct StandardFieldsModel {
    pub key_exchange_pubkey: Seq<u8>,
    pub view_tag: u8,
    pub masked_value: u64,
    pub masked_nonce: Seq<u8>,
}

impl View for OutputMessageStandardFields {
    type V = StandardFieldsModel;

    open spec fn view(&self) -> StandardFieldsModel {
        StandardFieldsModel {
            key_exchange_pubkey: self.key_exchange_pubkey@,
            view_tag: self.view_tag,
            masked_value: self.masked_value,
            masked_nonce: self.masked_nonce@,
        }
    }
}

pub open spec fn opt_standard_fields_model(o: Option<OutputMessageStandardFields>) -> Option<StandardFieldsModel> {
    match o {
        Some(x) => Some(x@),
        None => None,
    }
}

/// The standard fields: the key-exchange public key, the view tag, the masked value (8 bytes,
/// little-endian) and the masked nonce (16 bytes).
pub open spec fn parse_standard_fields(s: Seq<u8>) -> SpecParse<StandardFieldsModel> {
    match parse_key(s, ParseFailure::InvalidKeyExchangePubkey) {
        Err(e) => Err(e),
        Ok((key, n1)) => match parse_u8(s.skip(n1 as int)) {
            Err(e) => Err(e),
            Ok((view_tag, n2)) => match parse_u64_le(s.skip((n1 + n2) as int)) {
                Err(e) => Err(e),
                Ok((masked_value, n3)) => match parse_fixed(s.skip((n1 + n2 + n3) as int), 16) {
                    Err(e) => Err(e),
                    Ok((masked_nonce, n4)) => Ok(
                        (
                            StandardFieldsModel {
                                key_exchange_pubkey: key,
                                view_tag,
                                masked_value,
                                masked_nonce,
                            },
                            n1 + n2 + n3 + n4,
                        ),
                    ),
                },
            },
        },
    }
}

pub open spec fn standard_fields_bytes(x: StandardFieldsModel) -> Seq<u8> {
    x.key_exchange_pubkey + seq![x.view_tag] + le_bytes(x.masked_value as nat, 8) + x.masked_nonce
}

pub open spec fn standard_fields_well_formed(x: StandardFieldsModel) -> bool {
    &&& x.key_exchange_pubkey.len() == 33
    &&& is_valid_public_key(x.key_exchange_pubkey)
    &&& x.masked_nonce.len() == 16
}

/// The standard fields, on the wire only when `present`.
pub open spec fn parse_opt_standard_fields(s: Seq<u8>, present: bool) -> SpecParse<Option<StandardFieldsModel>> {
    if !present {
        Ok((None, 0))
    } else {
        match parse_standard_fields(s) {
            Ok((x, n)) => Ok((Some(x), n)),
            Err(e) => Err(e),
        }
    }
}

/// The standard fields are written whenever they are present.
pub open spec fn opt_standard_fields_bytes(o: Option<StandardFieldsModel>) -> Seq<u8> {
    match o {
        Some(x) => standard_fields_bytes(x),
        None => Seq::empty(),
    }
}

pub(crate) fn read_opt_standard_fields(data: &[u8], pos: usize, present: bool) -> (res: Result<
    (Option<OutputMessageStandardFields>, usize),
    DecodeError,
>)
    requires
        pos <= data@.len(),
    ensures
        match parse_opt_standard_fields(data@.skip(pos as int), present) {
            Ok((o, n)) => res matches Ok((v, end)) && opt_standard_fields_model(v) == o && end == pos + n,
            Err(e) => res == Err::<(Option<OutputMessageStandardFields>, usize), DecodeError>(e),
        },
        res matches Ok((_, end)) ==> pos <= end <= data@.len(),
{
    if !present {
        return Ok((None, pos));
    }
    let (key_exchange_pubkey, p1) = read_key(data, pos, ParseFailure::InvalidKeyExchangePubkey)?;
    let (view_tag, p2) = read_u8(data, p1)?;
    let (masked_value, p3) = read_u64_le(data, p2)?;
    let (masked_nonce, p4) = read_array::<16>(data, p3)?;
    let fields = OutputMessageStandardFields { key_exchange_pubkey, view_tag, masked_value, masked_nonce };
    Ok((Some(fields), p4))
}

fn write_opt_standard_fields(sf: &Option<OutputMessageStandardFields>, out: &mut Vec<u8>) -> (r: Result<(), EncodeError>)
    ensures
        wrote(r, old(out)@, final(out)@, Ok(opt_standard_fields_bytes(opt_standard_fields_model(*sf)))),
{
    match sf {
        Some(fields) => {
            let key = fields.key_exchange_pubkey.serialize();
            write_array(&key, out);
            out.push(fields.view_tag);
            write_le(fields.masked_value, 8, out);
            write_array(&fields.masked_nonce, out);
            assert(out@ =~= old(out)@ + standard_fields_bytes(fields@));
        },
        None => {
            assert(out@ =~= old(out)@ + Seq::<u8>::empty());
        },
    }
    Ok(())
}

/// Well-formed standard fields read back as themselves.
pub proof fn lemma_standard_fields_roundtrip(x: StandardFieldsModel, rest: Seq<u8>)
    requires
        standard_fields_well_formed(x),
    ensures
        parse_standard_fields(standard_fields_bytes(x) + rest) == Ok::<(StandardFieldsModel, nat), DecodeError>(
            (x, standard_fields_bytes(x).len()),
        ),
{
    reveal(parse_u64_le);
    lemma_pow256_values();
    lemma_le_roundtrip(x.masked_value as nat, 8);
    let s = standard_fields_bytes(x) + rest;
    let m = le_bytes(x.masked_value as nat, 8);
    lemma_key_roundtrip(x.key_exchange_pubkey, ParseFailure::InvalidKeyExchangePubkey, s.skip(33));
    assert(s =~= x.key_exchange_pubkey + s.skip(33));
    assert(s.skip(33) =~= seq![x.view_tag] + s.skip(34));
    assert(s.skip(34).take(8) =~= m);
    assert(s.skip(42) =~= x.masked_nonce + rest);
    lemma_fixed_roundtrip(x.masked_nonce, rest);
}

/// The encrypted/embedded payload of an MWEB [`Output`].
#[derive(Clone, PartialEq, Eq, PartialOrd, Ord, Debug, Hash)]
pub struct OutputMessage {
    pub features: u8,
    pub standard_fields: Option<OutputMessageStandardFields>,
    pub extra_data: Vec<u8>,
}

#[verifier::ext_equal]
pub struct OutputMessageModel {
    pub features: u8,
    pub standard_fields: Option<StandardFieldsModel>,
    pub extra_data: Seq<u8>,
}

impl View for OutputMessage {
    type V = OutputMessageModel;

    open spec fn view(&self) -> OutputMessageModel {
        OutputMessageModel {
            features: self.features,
            standard_fields: opt_standard_fields_model(self.standard_fields),
            extra_data: self.extra_data@,
        }
    }
}

/// An output message: the features byte, the standard fields when bit 0x01 is set, and extra
/// data when bit 0x02 is set.
pub open spec fn parse_output_message(s: Seq<u8>) -> SpecParse<OutputMessageModel> {
    output_message_stage_0(s, arbitrary(), 0)
}

#[verifier::opaque]
pub open spec fn output_message_stage_0(s: Seq<u8>, acc: OutputMessageModel, p: nat) -> SpecParse<OutputMessageModel> {
    match parse_u8(s.skip(p as int)) {
        Err(e) => Err(e),
        Ok((v, n)) => output_message_stage_1(s, OutputMessageModel { features: v, ..acc }, p + n),
    }
}

#[verifier::opaque]
pub open spec fn output_message_stage_1(s: Seq<u8>, acc: OutputMessageModel, p: nat) -> SpecParse<OutputMessageModel> {
    match parse_opt_standard_fields(s.skip(p as int), acc.features & 0x01 != 0) {
        Err(e) => Err(e),
        Ok((v, n)) => output_message_stage_2(s, OutputMessageModel { standard_fields: v, ..acc }, p + n),
    }
}

#[verifier::opaque]
pub open spec fn output_message_stage_2(s: Seq<u8>, acc: OutputMessageModel, p: nat) -> SpecParse<OutputMessageModel> {
    match parse_opt_byte_vec(s.skip(p as int), acc.features & 0x02 != 0) {
        Err(e) => Err(e),
        Ok((v, n)) => Ok((OutputMessageModel { extra_data: v, ..acc }, p + n)),
    }
}

/// Part `i` of the encoding of a OutputMessage.
#[verifier::opaque]
pub open spec fn output_message_part(m: OutputMessageModel, i: nat) -> EncodeOutcome {
    if i == 0 {
        Ok(seq![m.features])
    } else if i == 1 {
        Ok(opt_standard_fields_bytes(m.standard_fields))
    } else {
        Ok(opt_byte_vec_bytes(m.features & 0x02 != 0, m.extra_data))
    }
}

pub open spec fn output_message_parts(m: OutputMessageModel) -> spec_fn(nat) -> EncodeOutcome {
    |i: nat| output_message_part(m, i)
}

pub open spec fn encode_output_message(m: OutputMessageModel) -> EncodeOutcome {
    enc_parts(output_message_parts(m), 0, 3)
}

/// The output messages whose encoding reads back as themselves: the standard fields are
/// present exactly when bit 0x01 is set (they are written whenever present), extra data only
/// when bit 0x02 is set.
/// The message's fields agree with its feature bits and sizes: standard fields are present
/// exactly when bit `0x01` is set, extra data is empty without bit `0x02`.
pub open spec fn output_message_fields_agree(m: OutputMessageModel) -> bool {
    &&& (m.features & 0x01 != 0) == m.standard_fields is Some
    &&& (m.standard_fields matches Some(x) ==> x.key_exchange_pubkey.len() == 33 && x.masked_nonce.len() == 16)
    &&& (m.features & 0x02 == 0 ==> m.extra_data.len() == 0)
    &&& m.extra_data.len() <= u64::MAX
}

pub open spec fn output_message_well_formed(m: OutputMessageModel) -> bool {
    &&& output_message_fields_agree(m)
    &&& (m.standard_fields matches Some(x) ==> standard_fields_well_formed(x))
}

/// The bytes of part `i` of the encoding of a well-formed OutputMessage.
pub open spec fn output_message_part_bytes(m: OutputMessageModel, i: nat) -> Seq<u8> {
    if i == 0 {
        seq![m.features]
    } else if i == 1 {
        opt_standard_fields_bytes(m.standard_fields)
    } else {
        opt_byte_vec_bytes(m.features & 0x02 != 0, m.extra_data)
    }
}

pub open spec fn output_message_part_bytes_fn(m: OutputMessageModel) -> spec_fn(nat) -> Seq<u8> {
    |i: nat| output_message_part_bytes(m, i)
}

impl Wire for OutputMessage {
    open spec fn spec_parse(s: Seq<u8>) -> SpecParse<OutputMessageModel> {
        parse_output_message(s)
    }

    open spec fn spec_encode(m: OutputMessageModel) -> EncodeOutcome {
        encode_output_message(m)
    }

    open spec fn spec_well_formed(m: OutputMessageModel) -> bool {
        output_message_well_formed(m)
    }

    fn consensus_decode(data: &[u8], pos: usize) -> (res: Result<(OutputMessage, usize), DecodeError>) {
        let ghost s = data@.skip(pos as int);
        let ghost acc: OutputMessageModel = arbitrary();
        let p = pos;
        assert(parse_output_message(s) == output_message_stage_0(s, acc, (p - pos) as nat));
        let (features, p) = match read_u8(data, p) {
            Ok(r) => r,
            Err(e) => {
                assert(parse_output_message(s) == Err::<(OutputMessageModel, nat), DecodeError>(e)) by {
                    reveal(output_message_stage_0);
                }
                return Err(e);
            },
        };
        proof {
            let a2 = OutputMessageModel { features: features, ..acc };
            assert(parse_output_message(s) == output_message_stage_1(s, a2, (p - pos) as nat)) by {
                reveal(output_message_stage_0);
            }
        }
        let ghost acc = OutputMessageModel { features: features, ..acc };
        assert(parse_output_message(s) == output_message_stage_1(s, acc, (p - pos) as nat));
        let (standard_fields, p) = match read_opt_standard_fields(data, p, features & 0x01 != 0) {
            Ok(r) => r,
            Err(e) => {
                assert(parse_output_message(s) == Err::<(OutputMessageModel, nat), DecodeError>(e)) by {
                    reveal(output_message_stage_1);
                }
                return Err(e);
            },
        };
        proof {
            let a2 = OutputMessageModel { standard_fields: opt_standard_fields_model(standard_fields), ..acc };
            assert(parse_output_message(s) == output_message_stage_2(s, a2, (p - pos) as nat)) by {
                reveal(output_message_stage_1);
            }
        }
        let ghost acc = OutputMessageModel { standard_fields: opt_standard_fields_model(standard_fields), ..acc };
        assert(parse_output_message(s) == output_message_stage_2(s, acc, (p - pos) as nat));
        let (extra_data, p) = match read_opt_byte_vec(data, p, features & 0x02 != 0) {
            Ok(r) => r,
            Err(e) => {
                assert(parse_output_message(s) == Err::<(OutputMessageModel, nat), DecodeError>(e)) by {
                    reveal(output_message_stage_2);
                }
                return Err(e);
            },
        };
        let ghost acc = OutputMessageModel { extra_data: extra_data@, ..acc };
        assert(parse_output_message(s) == Ok::<(OutputMessageModel, nat), DecodeError>((acc, (p - pos) as nat))) by {
            reveal(output_message_stage_2);
        }
        let v = OutputMessage { features, standard_fields, extra_data };
        assert(v@ =~= acc);
        Ok((v, p))
    }

    fn consensus_encode(&self, out: &mut Vec<u8>) -> (res: Result<usize, EncodeError>)
        ensures
            output_message_fields_agree(self@) ==> res is Ok && parse_output_message(final(out)@.skip(old(out)@.len() as int)) == Ok::<
                (OutputMessageModel, nat),
                DecodeError,
            >((self@, (final(out)@.len() - old(out)@.len()) as nat)),
    {
        if let Some(sf) = &self.standard_fields {
            proof {
                use_type_invariant(&sf.key_exchange_pubkey);
            }
        }
        let ghost before = out@;
        let res = self.write_wire(out);
        proof {
            if output_message_fields_agree(self@) {
                lemma_output_message_roundtrip(self@, Seq::empty());
                assert(out@.skip(before.len() as int) =~= encode_output_message(self@)->Ok_0 + Seq::<u8>::empty());
            }
        }
        res
    }

    proof fn lemma_roundtrip(m: OutputMessageModel, rest: Seq<u8>) {
        lemma_output_message_roundtrip(m, rest);
    }
}

impl OutputMessage {
    /// Writes the message's fields in wire order.
    fn write_wire(&self, out: &mut Vec<u8>) -> (res: Result<usize, EncodeError>)
        ensures
            encoded_as(res, old(out)@, final(out)@, encode_output_message(self@)),
    {
        let ghost total = encode_output_message(self@);
        let ghost part = output_message_parts(self@);
        let start = out.len();
        proof {
            lemma_enc_parts_begin(total, part, 3, out@);
            assert(out@.take(start as int) =~= old(out)@);
        }
        let ghost before = out@;
        let r = write_u8_part(self.features, out);
        proof {
            assert(wrote(r, before, out@, part(0))) by {
                reveal(output_message_part);
            }
            lemma_enc_parts_advance(total, part, 0, 3, start as int, before, out@, r);
        }
        if let Err(e) = r {
            proof {
                lemma_enc_parts_stopped(total, e, start as int, old(out)@, out@);
            }
            return Err(e);
        }
        let ghost before = out@;
        let r = write_opt_standard_fields(&self.standard_fields, out);
        proof {
            assert(wrote(r, before, out@, part(1))) by {
                reveal(output_message_part);
            }
            lemma_enc_parts_advance(total, part, 1, 3, start as int, before, out@, r);
        }
        if let Err(e) = r {
            proof {
                lemma_enc_parts_stopped(total, e, start as int, old(out)@, out@);
            }
            return Err(e);
        }
        let ghost before = out@;
        let r = write_opt_byte_vec(self.features & 0x02 != 0, &self.extra_data, out);
        proof {
            assert(wrote(r, before, out@, part(2))) by {
                reveal(output_message_part);
            }
            lemma_enc_parts_advance(total, part, 2, 3, start as int, before, out@, r);
        }
        if let Err(e) = r {
            proof {
                lemma_enc_parts_stopped(total, e, start as int, old(out)@, out@);
            }
            return Err(e);
        }
        proof {
            lemma_enc_parts_end(total, part, 3, start as int, old(out)@, out@);
        }
        Ok(out.len() - start)
    }
}

/// A well-formed OutputMessage encodes as the concatenation of its parts.
pub proof fn lemma_output_message_encodes(m: OutputMessageModel)
    requires
        output_message_well_formed(m),
    ensures
        encode_output_message(m) == Ok::<Seq<u8>, (Seq<u8>, EncodeError)>(concat_parts(output_message_part_bytes_fn(m), 0, 3)),
{

    assert forall|j: nat| 0 <= j < 3 implies #[trigger] output_message_parts(m)(j) == Ok::<Seq<u8>, (Seq<u8>, EncodeError)>(
        output_message_part_bytes_fn(m)(j),
    ) by {
        reveal(output_message_part);
    }
    lemma_enc_parts_all(output_message_parts(m), output_message_part_bytes_fn(m), 0, 3);
}

/// A well-formed OutputMessage encodes, and its encoding reads back as the same value.
pub proof fn lemma_output_message_roundtrip(m: OutputMessageModel, rest: Seq<u8>)
    requires
        output_message_well_formed(m),
    ensures
        encode_output_message(m) is Ok,
        parse_output_message(encode_output_message(m)->Ok_0 + rest) == Ok::<(OutputMessageModel, nat), DecodeError>(
            (m, encode_output_message(m)->Ok_0.len()),
        ),
{
    lemma_output_message_encodes(m);
    let bytes = output_message_part_bytes_fn(m);
    let s = concat_parts(bytes, 0, 3) + rest;
    let r = |i: nat| concat_parts(bytes, i, 3) + rest;
    let p0: nat = 0;
    let p1 = p0 + bytes(0).len();
    let p2 = p1 + bytes(1).len();
    let p3 = p2 + bytes(2).len();
    assert(s.skip(0) =~= r(0));
    lemma_skip_part(s, p0, bytes, 0, 3, rest);
    lemma_skip_part(s, p1, bytes, 1, 3, rest);
    lemma_skip_part(s, p2, bytes, 2, 3, rest);
    assert(concat_parts(bytes, 3, 3) =~= Seq::<u8>::empty());
    assert(r(3) =~= rest);
    assert(s.len() == p3 + rest.len());
    let a0: OutputMessageModel = arbitrary();
    let a1 = OutputMessageModel { features: m.features, ..a0 };
    let a2 = OutputMessageModel { standard_fields: m.standard_fields, ..a1 };
    let a3 = OutputMessageModel { extra_data: m.extra_data, ..a2 };
    assert(output_message_stage_0(s, a0, p0) == output_message_stage_1(s, a1, p1)) by {
        reveal(output_message_stage_0);

    }
    assert(output_message_stage_1(s, a1, p1) == output_message_stage_2(s, a2, p2)) by {
        reveal(output_message_stage_1);
        if m.features & 0x01 != 0 {
            lemma_standard_fields_roundtrip(m.standard_fields->0, r(2));
        }
    }
    assert(output_message_stage_2(s, a2, p2) == Ok::<(OutputMessageModel, nat), DecodeError>((a3, p3))) by {
        reveal(output_message_stage_2);
        if m.features & 0x02 != 0 {
            lemma_byte_vec_roundtrip(m.extra_data, r(3));
        } else {
            assert(m.extra_data =~= Seq::<u8>::empty());
        }
    }
    assert(a3 =~= m);
}


// ----- Outputs -----------------------------------------------------------------------------------

/// An MWEB output.
#[derive(Clone, PartialEq, Eq, PartialOrd, Ord, Debug, Hash)]
pub struct Output {
    pub commitment: [u8; 33],
    pub sender_public_key: PublicKey,
    pub receiver_public_key: PublicKey,
    pub message: OutputMessage,
    pub range_proof: [u8; 675],
    pub signature: [u8; 64],
}

#[verifier::ext_equal]
pub struct OutputModel {
    pub commitment: Seq<u8>,
    pub sender_public_key: Seq<u8>,
    pub receiver_public_key: Seq<u8>,
    pub message: OutputMessageModel,
    pub range_proof: Seq<u8>,
    pub signature: Seq<u8>,
}

impl View for Output {
    type V = OutputModel;

    open spec fn view(&self) -> OutputModel {
        OutputModel {
            commitment: self.commitment@,
            sender_public_key: self.sender_public_key@,
            receiver_public_key: self.receiver_public_key@,
            message: self.message@,
            range_proof: self.range_proof@,
            signature: self.signature@,
        }
    }
}

/// An output: commitment, sender and receiver public keys, message, range proof, signature.
pub open spec fn parse_output(s: Seq<u8>) -> SpecParse<OutputModel> {
    output_stage_0(s, arbitrary(), 0)
}

#[verifier::opaque]
pub open spec fn output_stage_0(s: Seq<u8>, acc: OutputModel, p: nat) -> SpecParse<OutputModel> {
    match parse_fixed(s.skip(p as int), 33) {
        Err(e) => Err(e),
        Ok((v, n)) => output_stage_1(s, OutputModel { commitment: v, ..acc }, p + n),
    }
}

#[verifier::opaque]
pub open spec fn output_stage_1(s: Seq<u8>, acc: OutputModel, p: nat) -> SpecParse<OutputModel> {
    match parse_key(s.skip(p as int), ParseFailure::InvalidSenderPublicKey) {
        Err(e) => Err(e),
        Ok((v, n)) => output_stage_2(s, OutputModel { sender_public_key: v, ..acc }, p + n),
    }
}

#[verifier::opaque]
pub open spec fn output_stage_2(s: Seq<u8>, acc: OutputModel, p: nat) -> SpecParse<OutputModel> {
    match parse_key(s.skip(p as int), ParseFailure::InvalidReceiverPublicKey) {
        Err(e) => Err(e),
        Ok((v, n)) => output_stage_3(s, OutputModel { receiver_public_key: v, ..acc }, p + n),
    }
}

#[verifier::opaque]
pub open spec fn output_stage_3(s: Seq<u8>, acc: OutputModel, p: nat) -> SpecParse<OutputModel> {
    match parse_output_message(s.skip(p as int)) {
        Err(e) => Err(e),
        Ok((v, n)) => output_stage_4(s, OutputModel { message: v, ..acc }, p + n),
    }
}

#[verifier::opaque]
pub open spec fn output_stage_4(s: Seq<u8>, acc: OutputModel, p: nat) -> SpecParse<OutputModel> {
    match parse_fixed(s.skip(p as int), 675) {
        Err(e) => Err(e),
        Ok((v, n)) => output_stage_5(s, OutputModel { range_proof: v, ..acc }, p + n),
    }
}

#[verifier::opaque]
pub open spec fn output_stage_5(s: Seq<u8>, acc: OutputModel, p: nat) -> SpecParse<OutputModel> {
    match parse_fixed(s.skip(p as int), 64) {
        Err(e) => Err(e),
        Ok((v, n)) => Ok((OutputModel { signature: v, ..acc }, p + n)),
    }
}

/// Part `i` of the encoding of a Output.
#[verifier::opaque]
pub open spec fn output_part(m: OutputModel, i: nat) -> EncodeOutcome {
    if i == 0 {
        Ok(m.commitment)
    } else if i == 1 {
        Ok(m.sender_public_key)
    } else if i == 2 {
        Ok(m.receiver_public_key)
    } else if i == 3 {
        encode_output_message(m.message)
    } else if i == 4 {
        Ok(m.range_proof)
    } else {
        Ok(m.signature)
    }
}

pub open spec fn output_parts(m: OutputModel) -> spec_fn(nat) -> EncodeOutcome {
    |i: nat| output_part(m, i)
}

pub open spec fn encode_output(m: OutputModel) -> EncodeOutcome {
    enc_parts(output_parts(m), 0, 6)
}

/// The outputs whose encoding reads back as themselves: valid keys, a well-formed message, and
/// fields of their sizes.
/// The output's fields have their sizes and its message's fields agree with its bits.
pub open spec fn output_fields_agree(m: OutputModel) -> bool {
    &&& m.commitment.len() == 33
    &&& m.sender_public_key.len() == 33
    &&& m.receiver_public_key.len() == 33
    &&& output_message_fields_agree(m.message)
    &&& m.range_proof.len() == 675
    &&& m.signature.len() == 64
}

pub open spec fn output_well_formed(m: OutputModel) -> bool {
    &&& output_fields_agree(m)
    &&& is_valid_public_key(m.sender_public_key)
    &&& is_valid_public_key(m.receiver_public_key)
    &&& output_message_well_formed(m.message)
}

/// The bytes of part `i` of the encoding of a well-formed Output.
pub open spec fn output_part_bytes(m: OutputModel, i: nat) -> Seq<u8> {
    if i == 0 {
        m.commitment
    } else if i == 1 {
        m.sender_public_key
    } else if i == 2 {
        m.receiver_public_key
    } else if i == 3 {
        encode_output_message(m.message)->Ok_0
    } else if i == 4 {
        m.range_proof
    } else {
        m.signature
    }
}

pub open spec fn output_part_bytes_fn(m: OutputModel) -> spec_fn(nat) -> Seq<u8> {
    |i: nat| output_part_bytes(m, i)
}

impl Wire for Output {
    open spec fn spec_parse(s: Seq<u8>) -> SpecParse<OutputModel> {
        parse_output(s)
    }

    open spec fn spec_encode(m: OutputModel) -> EncodeOutcome {
        encode_output(m)
    }

    open spec fn spec_well_formed(m: OutputModel) -> bool {
        output_well_formed(m)
    }

    fn consensus_decode(data: &[u8], pos: usize) -> (res: Result<(Output, usize), DecodeError>) {
        let ghost s = data@.skip(pos as int);
        let ghost acc: OutputModel = arbitrary();
        let p = pos;
        assert(parse_output(s) == output_stage_0(s, acc, (p - pos) as nat));
        let (commitment, p) = match read_array::<33>(data, p) {
            Ok(r) => r,
            Err(e) => {
                assert(parse_output(s) == Err::<(OutputModel, nat), DecodeError>(e)) by {
                    reveal(output_stage_0);
                }
                return Err(e);
            },
        };
        proof {
            let a2 = OutputModel { commitment: commitment@, ..acc };
            assert(parse_output(s) == output_stage_1(s, a2, (p - pos) as nat)) by {
                reveal(output_stage_0);
            }
        }
        let ghost acc = OutputModel { commitment: commitment@, ..acc };
        assert(parse_output(s) == output_stage_1(s, acc, (p - pos) as nat));
        let (sender_public_key, p) = match read_key(data, p, ParseFailure::InvalidSenderPublicKey) {
            Ok(r) => r,
            Err(e) => {
                assert(parse_output(s) == Err::<(OutputModel, nat), DecodeError>(e)) by {
                    reveal(output_stage_1);
                }
                return Err(e);
            },
        };
        proof {
            let a2 = OutputModel { sender_public_key: sender_public_key@, ..acc };
            assert(parse_output(s) == output_stage_2(s, a2, (p - pos) as nat)) by {
                reveal(output_stage_1);
            }
        }
        let ghost acc = OutputModel { sender_public_key: sender_public_key@, ..acc };
        assert(parse_output(s) == output_stage_2(s, acc, (p - pos) as nat));
        let (receiver_public_key, p) = match read_key(data, p, ParseFailure::InvalidReceiverPublicKey) {
            Ok(r) => r,
            Err(e) => {
                assert(parse_output(s) == Err::<(OutputModel, nat), DecodeError>(e)) by {
                    reveal(output_stage_2);
                }
                return Err(e);
            },
        };
        proof {
            let a2 = OutputModel { receiver_public_key: receiver_public_key@, ..acc };
            assert(parse_output(s) == output_stage_3(s, a2, (p - pos) as nat)) by {
                reveal(output_stage_2);
            }
        }
        let ghost acc = OutputModel { receiver_public_key: receiver_public_key@, ..acc };
        assert(parse_output(s) == output_stage_3(s, acc, (p - pos) as nat));
        let (message, p) = match OutputMessage::consensus_decode(data, p) {
            Ok(r) => r,
            Err(e) => {
                assert(parse_output(s) == Err::<(OutputModel, nat), DecodeError>(e)) by {
                    reveal(output_stage_3);
                }
                return Err(e);
            },
        };
        proof {
            let a2 = OutputModel { message: message@, ..acc };
            assert(parse_output(s) == output_stage_4(s, a2, (p - pos) as nat)) by {
                reveal(output_stage_3);
            }
        }
        let ghost acc = OutputModel { message: message@, ..acc };
        assert(parse_output(s) == output_stage_4(s, acc, (p - pos) as nat));
        let (range_proof, p) = match read_array::<675>(data, p) {
            Ok(r) => r,
            Err(e) => {
                assert(parse_output(s) == Err::<(OutputModel, nat), DecodeError>(e)) by {
                    reveal(output_stage_4);
                }
                return Err(e);
            },
        };
        proof {
            let a2 = OutputModel { range_proof: range_proof@, ..acc };
            assert(parse_output(s) == output_stage_5(s, a2, (p - pos) as nat)) by {
                reveal(output_stage_4);
            }
        }
        let ghost acc = OutputModel { range_proof: range_proof@, ..acc };
        assert(parse_output(s) == output_stage_5(s, acc, (p - pos) as nat));
        let (signature, p) = match read_array::<64>(data, p) {
            Ok(r) => r,
            Err(e) => {
                assert(parse_output(s) == Err::<(OutputModel, nat), DecodeError>(e)) by {
                    reveal(output_stage_5);
                }
                return Err(e);
            },
        };
        let ghost acc = OutputModel { signature: signature@, ..acc };
        assert(parse_output(s) == Ok::<(OutputModel, nat), DecodeError>((acc, (p - pos) as nat))) by {
            reveal(output_stage_5);
        }
        let v = Output { commitment, sender_public_key, receiver_public_key, message, range_proof, signature };
        assert(v@ =~= acc);
        Ok((v, p))
    }

    fn consensus_encode(&self, out: &mut Vec<u8>) -> (res: Result<usize, EncodeError>)
        ensures
            output_fields_agree(self@) ==> res is Ok && parse_output(final(out)@.skip(old(out)@.len() as int)) == Ok::<
                (OutputModel, nat),
                DecodeError,
            >((self@, (final(out)@.len() - old(out)@.len()) as nat)),
    {
        proof {
            use_type_invariant(&self.sender_public_key);
            use_type_invariant(&self.receiver_public_key);
        }
        if let Some(sf) = &self.message.standard_fields {
            proof {
                use_type_invariant(&sf.key_exchange_pubkey);
            }
        }
        let ghost before = out@;
        let res = self.write_wire(out);
        proof {
            if output_fields_agree(self@) {
                lemma_output_roundtrip(self@, Seq::empty());
                assert(out@.skip(before.len() as int) =~= encode_output(self@)->Ok_0 + Seq::<u8>::empty());
            }
        }
        res
    }

    proof fn lemma_roundtrip(m: OutputModel, rest: Seq<u8>) {
        lemma_output_roundtrip(m, rest);
    }
}

impl Output {
    /// Writes the output's fields in wire order.
    fn write_wire(&self, out: &mut Vec<u8>) -> (res: Result<usize, EncodeError>)
        ensures
            encoded_as(res, old(out)@, final(out)@, encode_output(self@)),
    {
        let ghost total = encode_output(self@);
        let ghost part = output_parts(self@);
        let start = out.len();
        proof {
            lemma_enc_parts_begin(total, part, 6, out@);
            assert(out@.take(start as int) =~= old(out)@);
        }
        let ghost before = out@;
        let r = write_array_part(&self.commitment, out);
        proof {
            assert(wrote(r, before, out@, part(0))) by {
                reveal(output_part);
            }
            lemma_enc_parts_advance(total, part, 0, 6, start as int, before, out@, r);
        }
        if let Err(e) = r {
            proof {
                lemma_enc_parts_stopped(total, e, start as int, old(out)@, out@);
            }
            return Err(e);
        }
        let ghost before = out@;
        let r = write_key_part(&self.sender_public_key, out);
        proof {
            assert(wrote(r, before, out@, part(1))) by {
                reveal(output_part);
            }
            lemma_enc_parts_advance(total, part, 1, 6, start as int, before, out@, r);
        }
        if let Err(e) = r {
            proof {
                lemma_enc_parts_stopped(total, e, start as int, old(out)@, out@);
            }
            return Err(e);
        }
        let ghost before = out@;
        let r = write_key_part(&self.receiver_public_key, out);
        proof {
            assert(wrote(r, before, out@, part(2))) by {
                reveal(output_part);
            }
            lemma_enc_parts_advance(total, part, 2, 6, start as int, before, out@, r);
        }
        if let Err(e) = r {
            proof {
                lemma_enc_parts_stopped(total, e, start as int, old(out)@, out@);
            }
            return Err(e);
        }
        let ghost before = out@;
        let r = write_wire_part(&self.message, out);
        proof {
            assert(wrote(r, before, out@, part(3))) by {
                reveal(output_part);
            }
            lemma_enc_parts_advance(total, part, 3, 6, start as int, before, out@, r);
        }
        if let Err(e) = r {
            proof {
                lemma_enc_parts_stopped(total, e, start as int, old(out)@, out@);
            }
            return Err(e);
        }
        let ghost before = out@;
        let r = write_array_part(&self.range_proof, out);
        proof {
            assert(wrote(r, before, out@, part(4))) by {
                reveal(output_part);
            }
            lemma_enc_parts_advance(total, part, 4, 6, start as int, before, out@, r);
        }
        if let Err(e) = r {
            proof {
                lemma_enc_parts_stopped(total, e, start as int, old(out)@, out@);
            }
            return Err(e);
        }
        let ghost before = out@;
        let r = write_array_part(&self.signature, out);
        proof {
            assert(wrote(r, before, out@, part(5))) by {
                reveal(output_part);
            }
            lemma_enc_parts_advance(total, part, 5, 6, start as int, before, out@, r);
        }
        if let Err(e) = r {
            proof {
                lemma_enc_parts_stopped(total, e, start as int, old(out)@, out@);
            }
            return Err(e);
        }
        proof {
            lemma_enc_parts_end(total, part, 6, start as int, old(out)@, out@);
        }
        Ok(out.len() - start)
    }
}

/// A well-formed Output encodes as the concatenation of its parts.
pub proof fn lemma_output_encodes(m: OutputModel)
    requires
        output_well_formed(m),
    ensures
        encode_output(m) == Ok::<Seq<u8>, (Seq<u8>, EncodeError)>(concat_parts(output_part_bytes_fn(m), 0, 6)),
{
    lemma_output_message_roundtrip(m.message, Seq::empty());
    assert forall|j: nat| 0 <= j < 6 implies #[trigger] output_parts(m)(j) == Ok::<Seq<u8>, (Seq<u8>, EncodeError)>(
        output_part_bytes_fn(m)(j),
    ) by {
        reveal(output_part);
    }
    lemma_enc_parts_all(output_parts(m), output_part_bytes_fn(m), 0, 6);
}

/// A well-formed Output encodes, and its encoding reads back as the same value.
pub proof fn lemma_output_roundtrip(m: OutputModel, rest: Seq<u8>)
    requires
        output_well_formed(m),
    ensures
        encode_output(m) is Ok,
        parse_output(encode_output(m)->Ok_0 + rest) == Ok::<(OutputModel, nat), DecodeError>(
            (m, encode_output(m)->Ok_0.len()),
        ),
{
    lemma_output_encodes(m);
    let bytes = output_part_bytes_fn(m);
    let s = concat_parts(bytes, 0, 6) + rest;
    let r = |i: nat| concat_parts(bytes, i, 6) + rest;
    let p0: nat = 0;
    let p1 = p0 + bytes(0).len();
    let p2 = p1 + bytes(1).len();
    let p3 = p2 + bytes(2).len();
    let p4 = p3 + bytes(3).len();
    let p5 = p4 + bytes(4).len();
    let p6 = p5 + bytes(5).len();
    assert(s.skip(0) =~= r(0));
    lemma_skip_part(s, p0, bytes, 0, 6, rest);
    lemma_skip_part(s, p1, bytes, 1, 6, rest);
    lemma_skip_part(s, p2, bytes, 2, 6, rest);
    lemma_skip_part(s, p3, bytes, 3, 6, rest);
    lemma_skip_part(s, p4, bytes, 4, 6, rest);
    lemma_skip_part(s, p5, bytes, 5, 6, rest);
    assert(concat_parts(bytes, 6, 6) =~= Seq::<u8>::empty());
    assert(r(6) =~= rest);
    assert(s.len() == p6 + rest.len());
    let a0: OutputModel = arbitrary();
    let a1 = OutputModel { commitment: m.commitment, ..a0 };
    let a2 = OutputModel { sender_public_key: m.sender_public_key, ..a1 };
    let a3 = OutputModel { receiver_public_key: m.receiver_public_key, ..a2 };
    let a4 = OutputModel { message: m.message, ..a3 };
    let a5 = OutputModel { range_proof: m.range_proof, ..a4 };
    let a6 = OutputModel { signature: m.signature, ..a5 };
    assert(output_stage_0(s, a0, p0) == output_stage_1(s, a1, p1)) by {
        reveal(output_stage_0);
        lemma_fixed_roundtrip(m.commitment, r(1));
    }
    assert(output_stage_1(s, a1, p1) == output_stage_2(s, a2, p2)) by {
        reveal(output_stage_1);
        lemma_key_roundtrip(m.sender_public_key, ParseFailure::InvalidSenderPublicKey, r(2));
    }
    assert(output_stage_2(s, a2, p2) == output_stage_3(s, a3, p3)) by {
        reveal(output_stage_2);
        lemma_key_roundtrip(m.receiver_public_key, ParseFailure::InvalidReceiverPublicKey, r(3));
    }
    assert(output_stage_3(s, a3, p3) == output_stage_4(s, a4, p4)) by {
        reveal(output_stage_3);
        lemma_output_message_roundtrip(m.message, r(4));
    }
    assert(output_stage_4(s, a4, p4) == output_stage_5(s, a5, p5)) by {
        reveal(output_stage_4);
        lemma_fixed_roundtrip(m.range_proof, r(5));
    }
    assert(output_stage_5(s, a5, p5) == Ok::<(OutputModel, nat), DecodeError>((a6, p6))) by {
        reveal(output_stage_5);
        lemma_fixed_roundtrip(m.signature, r(6));
    }
    assert(a6 =~= m);
}


// ----- Bodies and transactions -------------------------------------------------------------------

/// The body of an MWEB transaction (or extension block): inputs, outputs, and kernels.
#[derive(Clone, PartialEq, Eq, PartialOrd, Ord, Debug, Hash)]
pub struct TxBody {
    pub inputs: Vec<Input>,
    pub outputs: Vec<Output>,
    pub kernels: Vec<Kernel>,
}

#[verifier::ext_equal]
pub struct TxBodyModel {
    pub inputs: Seq<InputModel>,
    pub outputs: Seq<OutputModel>,
    pub kernels: Seq<KernelModel>,
}

impl View for TxBody {
    type V = TxBodyModel;

    open spec fn view(&self) -> TxBodyModel {
        TxBodyModel {
            inputs: models(self.inputs@),
            outputs: models(self.outputs@),
            kernels: models(self.kernels@),
        }
    }
}

/// A transaction body: the inputs, the outputs and the kernels, each a vector.
pub open spec fn parse_tx_body(s: Seq<u8>) -> SpecParse<TxBodyModel> {
    tx_body_stage_0(s, arbitrary(), 0)
}

#[verifier::opaque]
pub open spec fn tx_body_stage_0(s: Seq<u8>, acc: TxBodyModel, p: nat) -> SpecParse<TxBodyModel> {
    match parse_vec::<Input>(s.skip(p as int)) {
        Err(e) => Err(e),
        Ok((v, n)) => tx_body_stage_1(s, TxBodyModel { inputs: v, ..acc }, p + n),
    }
}

#[verifier::opaque]
pub open spec fn tx_body_stage_1(s: Seq<u8>, acc: TxBodyModel, p: nat) -> SpecParse<TxBodyModel> {
    match parse_vec::<Output>(s.skip(p as int)) {
        Err(e) => Err(e),
        Ok((v, n)) => tx_body_stage_2(s, TxBodyModel { outputs: v, ..acc }, p + n),
    }
}

#[verifier::opaque]
pub open spec fn tx_body_stage_2(s: Seq<u8>, acc: TxBodyModel, p: nat) -> SpecParse<TxBodyModel> {
    match parse_vec::<Kernel>(s.skip(p as int)) {
        Err(e) => Err(e),
        Ok((v, n)) => Ok((TxBodyModel { kernels: v, ..acc }, p + n)),
    }
}

/// Part `i` of the encoding of a TxBody.
#[verifier::opaque]
pub open spec fn tx_body_part(m: TxBodyModel, i: nat) -> EncodeOutcome {
    if i == 0 {
        encode_vec::<Input>(m.inputs)
    } else if i == 1 {
        encode_vec::<Output>(m.outputs)
    } else {
        encode_vec::<Kernel>(m.kernels)
    }
}

pub open spec fn tx_body_parts(m: TxBodyModel) -> spec_fn(nat) -> EncodeOutcome {
    |i: nat| tx_body_part(m, i)
}

pub open spec fn encode_tx_body(m: TxBodyModel) -> EncodeOutcome {
    enc_parts(tx_body_parts(m), 0, 3)
}

/// The bodies whose encoding reads back as themselves: well-formed items, counts that fit.
/// Each input, output and kernel of the body has fields that agree with its bits and sizes.
pub open spec fn tx_body_fields_agree(m: TxBodyModel) -> bool {
    &&& m.inputs.len() <= u64::MAX
    &&& (forall|i: int| 0 <= i < m.inputs.len() ==> input_fields_agree(#[trigger] m.inputs[i]))
    &&& m.outputs.len() <= u64::MAX
    &&& (forall|i: int| 0 <= i < m.outputs.len() ==> output_fields_agree(#[trigger] m.outputs[i]))
    &&& m.kernels.len() <= u64::MAX
    &&& (forall|i: int| 0 <= i < m.kernels.len() ==> kernel_fields_agree(#[trigger] m.kernels[i]))
}

pub open spec fn tx_body_well_formed(m: TxBodyModel) -> bool {
    &&& m.inputs.len() <= u64::MAX
    &&& (forall|i: int| 0 <= i < m.inputs.len() ==> input_well_formed(#[trigger] m.inputs[i]))
    &&& m.outputs.len() <= u64::MAX
    &&& (forall|i: int| 0 <= i < m.outputs.len() ==> output_well_formed(#[trigger] m.outputs[i]))
    &&& m.kernels.len() <= u64::MAX
    &&& (forall|i: int| 0 <= i < m.kernels.len() ==> kernel_well_formed(#[trigger] m.kernels[i]))
}

/// The bytes of part `i` of the encoding of a well-formed TxBody.
pub open spec fn tx_body_part_bytes(m: TxBodyModel, i: nat) -> Seq<u8> {
    if i == 0 {
        encode_vec::<Input>(m.inputs)->Ok_0
    } else if i == 1 {
        encode_vec::<Output>(m.outputs)->Ok_0
    } else {
        encode_vec::<Kernel>(m.kernels)->Ok_0
    }
}

pub open spec fn tx_body_part_bytes_fn(m: TxBodyModel) -> spec_fn(nat) -> Seq<u8> {
    |i: nat| tx_body_part_bytes(m, i)
}

/// The keys of a body's elements are keys secp256k1 accepted, so elements whose fields agree
/// with their bits are well-formed.
fn body_keys_valid(b: &TxBody)
    ensures
        tx_body_fields_agree(b@) ==> tx_body_well_formed(b@),
{
    let mut i: usize = 0;
    while i < b.inputs.len()
        invariant
            i <= b.inputs@.len(),
            forall|j: int| 0 <= j < i ==> input_fields_agree(#[trigger] b.inputs@[j]@) ==> input_well_formed(b.inputs@[j]@),
        decreases b.inputs@.len() - i,
    {
        let x = &b.inputs[i];
        proof {
            use_type_invariant(&x.output_public_key);
        }
        if let Some(pk) = &x.input_public_key {
            proof {
                use_type_invariant(pk);
            }
        }
        i = i + 1;
    }
    let mut i: usize = 0;
    while i < b.outputs.len()
        invariant
            i <= b.outputs@.len(),
            forall|j: int| 0 <= j < i ==> output_fields_agree(#[trigger] b.outputs@[j]@) ==> output_well_formed(b.outputs@[j]@),
        decreases b.outputs@.len() - i,
    {
        let x = &b.outputs[i];
        proof {
            use_type_invariant(&x.sender_public_key);
            use_type_invariant(&x.receiver_public_key);
        }
        if let Some(sf) = &x.message.standard_fields {
            proof {
                use_type_invariant(&sf.key_exchange_pubkey);
            }
        }
        i = i + 1;
    }
    let mut i: usize = 0;
    while i < b.kernels.len()
        invariant
            i <= b.kernels@.len(),
            forall|j: int| 0 <= j < i ==> kernel_fields_agree(#[trigger] b.kernels@[j]@) ==> kernel_well_formed(b.kernels@[j]@),
        decreases b.kernels@.len() - i,
    {
        if let Some(pk) = &b.kernels[i].stealth_excess {
            proof {
                use_type_invariant(pk);
            }
        }
        i = i + 1;
    }
    proof {
        let m = b@;
        assert forall|j: int| 0 <= j < m.inputs.len() implies (input_fields_agree(#[trigger] m.inputs[j]) ==> input_well_formed(m.inputs[j])) by {
            assert(m.inputs[j] == b.inputs@[j]@);
        }
        assert forall|j: int| 0 <= j < m.outputs.len() implies (output_fields_agree(#[trigger] m.outputs[j]) ==> output_well_formed(m.outputs[j])) by {
            assert(m.outputs[j] == b.outputs@[j]@);
        }
        assert forall|j: int| 0 <= j < m.kernels.len() implies (kernel_fields_agree(#[trigger] m.kernels[j]) ==> kernel_well_formed(m.kernels[j])) by {
            assert(m.kernels[j] == b.kernels@[j]@);
        }
    }
}

impl Wire for TxBody {
    open spec fn spec_parse(s: Seq<u8>) -> SpecParse<TxBodyModel> {
        parse_tx_body(s)
    }

    open spec fn spec_encode(m: TxBodyModel) -> EncodeOutcome {
        encode_tx_body(m)
    }

    open spec fn spec_well_formed(m: TxBodyModel) -> bool {
        tx_body_well_formed(m)
    }

    fn consensus_decode(data: &[u8], pos: usize) -> (res: Result<(TxBody, usize), DecodeError>) {
        let ghost s = data@.skip(pos as int);
        let ghost acc: TxBodyModel = arbitrary();
        let p = pos;
        assert(parse_tx_body(s) == tx_body_stage_0(s, acc, (p - pos) as nat));
        let (inputs, p) = match decode_vec::<Input>(data, p) {
            Ok(r) => r,
            Err(e) => {
                assert(parse_tx_body(s) == Err::<(TxBodyModel, nat), DecodeError>(e)) by {
                    reveal(tx_body_stage_0);
                }
                return Err(e);
            },
        };
        proof {
            let a2 = TxBodyModel { inputs: models(inputs@), ..acc };
            assert(parse_tx_body(s) == tx_body_stage_1(s, a2, (p - pos) as nat)) by {
                reveal(tx_body_stage_0);
            }
        }
        let ghost acc = TxBodyModel { inputs: models(inputs@), ..acc };
        assert(parse_tx_body(s) == tx_body_stage_1(s, acc, (p - pos) as nat));
        let (outputs, p) = match decode_vec::<Output>(data, p) {
            Ok(r) => r,
            Err(e) => {
                assert(parse_tx_body(s) == Err::<(TxBodyModel, nat), DecodeError>(e)) by {
                    reveal(tx_body_stage_1);
                }
                return Err(e);
            },
        };
        proof {
            let a2 = TxBodyModel { outputs: models(outputs@), ..acc };
            assert(parse_tx_body(s) == tx_body_stage_2(s, a2, (p - pos) as nat)) by {
                reveal(tx_body_stage_1);
            }
        }
        let ghost acc = TxBodyModel { outputs: models(outputs@), ..acc };
        assert(parse_tx_body(s) == tx_body_stage_2(s, acc, (p - pos) as nat));
        let (kernels, p) = match decode_vec::<Kernel>(data, p) {
            Ok(r) => r,
            Err(e) => {
                assert(parse_tx_body(s) == Err::<(TxBodyModel, nat), DecodeError>(e)) by {
                    reveal(tx_body_stage_2);
                }
                return Err(e);
            },
        };
        let ghost acc = TxBodyModel { kernels: models(kernels@), ..acc };
        assert(parse_tx_body(s) == Ok::<(TxBodyModel, nat), DecodeError>((acc, (p - pos) as nat))) by {
            reveal(tx_body_stage_2);
        }
        let v = TxBody { inputs, outputs, kernels };
        assert(v@ =~= acc);
        Ok((v, p))
    }

    fn consensus_encode(&self, out: &mut Vec<u8>) -> (res: Result<usize, EncodeError>)
        ensures
            tx_body_fields_agree(self@) ==> res is Ok && parse_tx_body(final(out)@.skip(old(out)@.len() as int)) == Ok::<
                (TxBodyModel, nat),
                DecodeError,
            >((self@, (final(out)@.len() - old(out)@.len()) as nat)),
    {
        body_keys_valid(self);
        let ghost before = out@;
        let res = self.write_wire(out);
        proof {
            if tx_body_fields_agree(self@) {
                lemma_tx_body_roundtrip(self@, Seq::empty());
                assert(out@.skip(before.len() as int) =~= encode_tx_body(self@)->Ok_0 + Seq::<u8>::empty());
            }
        }
        res
    }

    proof fn lemma_roundtrip(m: TxBodyModel, rest: Seq<u8>) {
        lemma_tx_body_roundtrip(m, rest);
    }
}

impl TxBody {
    /// Writes the inputs, the outputs and the kernels.
    fn write_wire(&self, out: &mut Vec<u8>) -> (res: Result<usize, EncodeError>)
        ensures
            encoded_as(res, old(out)@, final(out)@, encode_tx_body(self@)),
    {
        let ghost total = encode_tx_body(self@);
        let ghost part = tx_body_parts(self@);
        let start = out.len();
        proof {
            lemma_enc_parts_begin(total, part, 3, out@);
            assert(out@.take(start as int) =~= old(out)@);
        }
        let ghost before = out@;
        let r = write_vec_part(&self.inputs, out);
        proof {
            assert(wrote(r, before, out@, part(0))) by {
                reveal(tx_body_part);
            }
            lemma_enc_parts_advance(total, part, 0, 3, start as int, before, out@, r);
        }
        if let Err(e) = r {
            proof {
                lemma_enc_parts_stopped(total, e, start as int, old(out)@, out@);
            }
            return Err(e);
        }
        let ghost before = out@;
        let r = write_vec_part(&self.outputs, out);
        proof {
            assert(wrote(r, before, out@, part(1))) by {
                reveal(tx_body_part);
            }
            lemma_enc_parts_advance(total, part, 1, 3, start as int, before, out@, r);
        }
        if let Err(e) = r {
            proof {
                lemma_enc_parts_stopped(total, e, start as int, old(out)@, out@);
            }
            return Err(e);
        }
        let ghost before = out@;
        let r = write_vec_part(&self.kernels, out);
        proof {
            assert(wrote(r, before, out@, part(2))) by {
                reveal(tx_body_part);
            }
            lemma_enc_parts_advance(total, part, 2, 3, start as int, before, out@, r);
        }
        if let Err(e) = r {
            proof {
                lemma_enc_parts_stopped(total, e, start as int, old(out)@, out@);
            }
            return Err(e);
        }
        proof {
            lemma_enc_parts_end(total, part, 3, start as int, old(out)@, out@);
        }
        Ok(out.len() - start)
    }
}

/// A well-formed TxBody encodes as the concatenation of its parts.
pub proof fn lemma_tx_body_encodes(m: TxBodyModel)
    requires
        tx_body_well_formed(m),
    ensures
        encode_tx_body(m) == Ok::<Seq<u8>, (Seq<u8>, EncodeError)>(concat_parts(tx_body_part_bytes_fn(m), 0, 3)),
{
    lemma_vec_roundtrip::<Input>(m.inputs, Seq::empty());
    lemma_vec_roundtrip::<Output>(m.outputs, Seq::empty());
    lemma_vec_roundtrip::<Kernel>(m.kernels, Seq::empty());
    assert forall|j: nat| 0 <= j < 3 implies #[trigger] tx_body_parts(m)(j) == Ok::<Seq<u8>, (Seq<u8>, EncodeError)>(
        tx_body_part_bytes_fn(m)(j),
    ) by {
        reveal(tx_body_part);
    }
    lemma_enc_parts_all(tx_body_parts(m), tx_body_part_bytes_fn(m), 0, 3);
}

/// A well-formed TxBody encodes, and its encoding reads back as the same value.
pub proof fn lemma_tx_body_roundtrip(m: TxBodyModel, rest: Seq<u8>)
    requires
        tx_body_well_formed(m),
    ensures
        encode_tx_body(m) is Ok,
        parse_tx_body(encode_tx_body(m)->Ok_0 + rest) == Ok::<(TxBodyModel, nat), DecodeError>(
            (m, encode_tx_body(m)->Ok_0.len()),
        ),
{
    lemma_tx_body_encodes(m);
    let bytes = tx_body_part_bytes_fn(m);
    let s = concat_parts(bytes, 0, 3) + rest;
    let r = |i: nat| concat_parts(bytes, i, 3) + rest;
    let p0: nat = 0;
    let p1 = p0 + bytes(0).len();
    let p2 = p1 + bytes(1).len();
    let p3 = p2 + bytes(2).len();
    assert(s.skip(0) =~= r(0));
    lemma_skip_part(s, p0, bytes, 0, 3, rest);
    lemma_skip_part(s, p1, bytes, 1, 3, rest);
    lemma_skip_part(s, p2, bytes, 2, 3, rest);
    assert(concat_parts(bytes, 3, 3) =~= Seq::<u8>::empty());
    assert(r(3) =~= rest);
    assert(s.len() == p3 + rest.len());
    let a0: TxBodyModel = arbitrary();
    let a1 = TxBodyModel { inputs: m.inputs, ..a0 };
    let a2 = TxBodyModel { outputs: m.outputs, ..a1 };
    let a3 = TxBodyModel { kernels: m.kernels, ..a2 };
    assert(tx_body_stage_0(s, a0, p0) == tx_body_stage_1(s, a1, p1)) by {
        reveal(tx_body_stage_0);
        lemma_vec_roundtrip::<Input>(m.inputs, r(1));
    }
    assert(tx_body_stage_1(s, a1, p1) == tx_body_stage_2(s, a2, p2)) by {
        reveal(tx_body_stage_1);
        lemma_vec_roundtrip::<Output>(m.outputs, r(2));
    }
    assert(tx_body_stage_2(s, a2, p2) == Ok::<(TxBodyModel, nat), DecodeError>((a3, p3))) by {
        reveal(tx_body_stage_2);
        lemma_vec_roundtrip::<Kernel>(m.kernels, r(3));
    }
    assert(a3 =~= m);
}


/// A full MWEB transaction as embedded inside a regular Litecoin transaction with segwit flag 9
/// (or, with flag 8, as a peg-in container with no MW body).
#[derive(Clone, PartialEq, Eq, PartialOrd, Ord, Debug, Hash)]
pub struct Transaction {
    pub kernel_offset: [u8; 32],
    pub stealth_offset: [u8; 32],
    pub body: TxBody,
}

#[verifier::ext_equal]
pub struct TransactionModel {
    pub kernel_offset: Seq<u8>,
    pub stealth_offset: Seq<u8>,
    pub body: TxBodyModel,
}

impl View for Transaction {
    type V = TransactionModel;

    open spec fn view(&self) -> TransactionModel {
        TransactionModel {
            kernel_offset: self.kernel_offset@,
            stealth_offset: self.stealth_offset@,
            body: self.body@,
        }
    }
}

/// A transaction: the kernel offset, the stealth offset, and the body, which must hold at least
/// one kernel.
pub open spec fn parse_transaction(s: Seq<u8>) -> SpecParse<TransactionModel> {
    transaction_stage_0(s, arbitrary(), 0)
}

#[verifier::opaque]
pub open spec fn transaction_stage_0(s: Seq<u8>, acc: TransactionModel, p: nat) -> SpecParse<TransactionModel> {
    match parse_fixed(s.skip(p as int), 32) {
        Err(e) => Err(e),
        Ok((v, n)) => transaction_stage_1(s, TransactionModel { kernel_offset: v, ..acc }, p + n),
    }
}

#[verifier::opaque]
pub open spec fn transaction_stage_1(s: Seq<u8>, acc: TransactionModel, p: nat) -> SpecParse<TransactionModel> {
    match parse_fixed(s.skip(p as int), 32) {
        Err(e) => Err(e),
        Ok((v, n)) => transaction_stage_2(s, TransactionModel { stealth_offset: v, ..acc }, p + n),
    }
}

#[verifier::opaque]
pub open spec fn transaction_stage_2(s: Seq<u8>, acc: TransactionModel, p: nat) -> SpecParse<TransactionModel> {
    match parse_tx_body(s.skip(p as int)) {
        Err(e) => Err(e),
        Ok((v, n)) => if v.kernels.len() == 0 {
            Err(DecodeError::ParseFailed(ParseFailure::MissingKernel))
        } else {
            Ok((TransactionModel { body: v, ..acc }, p + n))
        },
    }
}

/// Part `i` of the encoding of a Transaction.
#[verifier::opaque]
pub open spec fn transaction_part(m: TransactionModel, i: nat) -> EncodeOutcome {
    if i == 0 {
        Ok(m.kernel_offset)
    } else if i == 1 {
        Ok(m.stealth_offset)
    } else {
        encode_tx_body(m.body)
    }
}

pub open spec fn transaction_parts(m: TransactionModel) -> spec_fn(nat) -> EncodeOutcome {
    |i: nat| transaction_part(m, i)
}

pub open spec fn encode_transaction(m: TransactionModel) -> EncodeOutcome {
    enc_parts(transaction_parts(m), 0, 3)
}

/// The transactions whose encoding reads back as themselves: a well-formed body with at least one
/// kernel, and offsets of 32 bytes.
/// The transaction's body agrees with its elements' bits and sizes and holds a kernel.
pub open spec fn transaction_fields_agree(m: TransactionModel) -> bool {
    &&& m.kernel_offset.len() == 32
    &&& m.stealth_offset.len() == 32
    &&& tx_body_fields_agree(m.body)
    &&& m.body.kernels.len() > 0
}

pub open spec fn transaction_well_formed(m: TransactionModel) -> bool {
    &&& m.kernel_offset.len() == 32
    &&& m.stealth_offset.len() == 32
    &&& tx_body_well_formed(m.body)
    &&& m.body.kernels.len() > 0
}

/// The bytes of part `i` of the encoding of a well-formed Transaction.
pub open spec fn transaction_part_bytes(m: TransactionModel, i: nat) -> Seq<u8> {
    if i == 0 {
        m.kernel_offset
    } else if i == 1 {
        m.stealth_offset
    } else {
        encode_tx_body(m.body)->Ok_0
    }
}

pub open spec fn transaction_part_bytes_fn(m: TransactionModel) -> spec_fn(nat) -> Seq<u8> {
    |i: nat| transaction_part_bytes(m, i)
}

impl Wire for Transaction {
    open spec fn spec_parse(s: Seq<u8>) -> SpecParse<TransactionModel> {
        parse_transaction(s)
    }

    open spec fn spec_encode(m: TransactionModel) -> EncodeOutcome {
        encode_transaction(m)
    }

    open spec fn spec_well_formed(m: TransactionModel) -> bool {
        transaction_well_formed(m)
    }

    fn consensus_decode(data: &[u8], pos: usize) -> (res: Result<(Transaction, usize), DecodeError>) {
        let ghost s = data@.skip(pos as int);
        let ghost acc: TransactionModel = arbitrary();
        let p = pos;
        assert(parse_transaction(s) == transaction_stage_0(s, acc, (p - pos) as nat));
        let (kernel_offset, p) = match read_array::<32>(data, p) {
            Ok(r) => r,
            Err(e) => {
                assert(parse_transaction(s) == Err::<(TransactionModel, nat), DecodeError>(e)) by {
                    reveal(transaction_stage_0);
                }
                return Err(e);
            },
        };
        proof {
            let a2 = TransactionModel { kernel_offset: kernel_offset@, ..acc };
            assert(parse_transaction(s) == transaction_stage_1(s, a2, (p - pos) as nat)) by {
                reveal(transaction_stage_0);
            }
        }
        let ghost acc = TransactionModel { kernel_offset: kernel_offset@, ..acc };
        assert(parse_transaction(s) == transaction_stage_1(s, acc, (p - pos) as nat));
        let (stealth_offset, p) = match read_array::<32>(data, p) {
            Ok(r) => r,
            Err(e) => {
                assert(parse_transaction(s) == Err::<(TransactionModel, nat), DecodeError>(e)) by {
                    reveal(transaction_stage_1);
                }
                return Err(e);
            },
        };
        proof {
            let a2 = TransactionModel { stealth_offset: stealth_offset@, ..acc };
            assert(parse_transaction(s) == transaction_stage_2(s, a2, (p - pos) as nat)) by {
                reveal(transaction_stage_1);
            }
        }
        let ghost acc = TransactionModel { stealth_offset: stealth_offset@, ..acc };
        assert(parse_transaction(s) == transaction_stage_2(s, acc, (p - pos) as nat));
        let (body, p) = match TxBody::consensus_decode(data, p) {
            Ok(r) => r,
            Err(e) => {
                assert(parse_transaction(s) == Err::<(TransactionModel, nat), DecodeError>(e)) by {
                    reveal(transaction_stage_2);
                }
                return Err(e);
            },
        };
        if body.kernels.len() == 0 {
            // Litecoin Core asserts an MWEB transaction has at least one kernel.
            assert(parse_transaction(s) == Err::<(TransactionModel, nat), DecodeError>(
                DecodeError::ParseFailed(ParseFailure::MissingKernel),
            )) by {
                reveal(transaction_stage_2);
            }
            return Err(DecodeError::ParseFailed(ParseFailure::MissingKernel));
        }
        let ghost acc = TransactionModel { body: body@, ..acc };
        assert(parse_transaction(s) == Ok::<(TransactionModel, nat), DecodeError>((acc, (p - pos) as nat))) by {
            reveal(transaction_stage_2);
        }
        let v = Transaction { kernel_offset, stealth_offset, body };
        assert(v@ =~= acc);
        Ok((v, p))
    }

    fn consensus_encode(&self, out: &mut Vec<u8>) -> (res: Result<usize, EncodeError>)
        ensures
            transaction_fields_agree(self@) ==> res is Ok && parse_transaction(final(out)@.skip(old(out)@.len() as int)) == Ok::<
                (TransactionModel, nat),
                DecodeError,
            >((self@, (final(out)@.len() - old(out)@.len()) as nat)),
    {
        body_keys_valid(&self.body);
        let ghost before = out@;
        let res = self.write_wire(out);
        proof {
            if transaction_fields_agree(self@) {
                lemma_transaction_roundtrip(self@, Seq::empty());
                assert(out@.skip(before.len() as int) =~= encode_transaction(self@)->Ok_0 + Seq::<u8>::empty());
            }
        }
        res
    }

    proof fn lemma_roundtrip(m: TransactionModel, rest: Seq<u8>) {
        lemma_transaction_roundtrip(m, rest);
    }
}

impl Transaction {
    /// Writes the offsets and the body.
    fn write_wire(&self, out: &mut Vec<u8>) -> (res: Result<usize, EncodeError>)
        ensures
            encoded_as(res, old(out)@, final(out)@, encode_transaction(self@)),
    {
        let ghost total = encode_transaction(self@);
        let ghost part = transaction_parts(self@);
        let start = out.len();
        proof {
            lemma_enc_parts_begin(total, part, 3, out@);
            assert(out@.take(start as int) =~= old(out)@);
        }
        let ghost before = out@;
        let r = write_array_part(&self.kernel_offset, out);
        proof {
            assert(wrote(r, before, out@, part(0))) by {
                reveal(transaction_part);
            }
            lemma_enc_parts_advance(total, part, 0, 3, start as int, before, out@, r);
        }
        if let Err(e) = r {
            proof {
                lemma_enc_parts_stopped(total, e, start as int, old(out)@, out@);
            }
            return Err(e);
        }
        let ghost before = out@;
        let r = write_array_part(&self.stealth_offset, out);
        proof {
            assert(wrote(r, before, out@, part(1))) by {
                reveal(transaction_part);
            }
            lemma_enc_parts_advance(total, part, 1, 3, start as int, before, out@, r);
        }
        if let Err(e) = r {
            proof {
                lemma_enc_parts_stopped(total, e, start as int, old(out)@, out@);
            }
            return Err(e);
        }
        let ghost before = out@;
        let r = write_wire_part(&self.body, out);
        proof {
            assert(wrote(r, before, out@, part(2))) by {
                reveal(transaction_part);
            }
            lemma_enc_parts_advance(total, part, 2, 3, start as int, before, out@, r);
        }
        if let Err(e) = r {
            proof {
                lemma_enc_parts_stopped(total, e, start as int, old(out)@, out@);
            }
            return Err(e);
        }
        proof {
            lemma_enc_parts_end(total, part, 3, start as int, old(out)@, out@);
        }
        Ok(out.len() - start)
    }
}

/// A well-formed Transaction encodes as the concatenation of its parts.
pub proof fn lemma_transaction_encodes(m: TransactionModel)
    requires
        transaction_well_formed(m),
    ensures
        encode_transaction(m) == Ok::<Seq<u8>, (Seq<u8>, EncodeError)>(concat_parts(transaction_part_bytes_fn(m), 0, 3)),
{
    lemma_tx_body_roundtrip(m.body, Seq::empty());
    assert forall|j: nat| 0 <= j < 3 implies #[trigger] transaction_parts(m)(j) == Ok::<Seq<u8>, (Seq<u8>, EncodeError)>(
        transaction_part_bytes_fn(m)(j),
    ) by {
        reveal(transaction_part);
    }
    lemma_enc_parts_all(transaction_parts(m), transaction_part_bytes_fn(m), 0, 3);
}

/// A well-formed Transaction encodes, and its encoding reads back as the same value.
pub proof fn lemma_transaction_roundtrip(m: TransactionModel, rest: Seq<u8>)
    requires
        transaction_well_formed(m),
    ensures
        encode_transaction(m) is Ok,
        parse_transaction(encode_transaction(m)->Ok_0 + rest) == Ok::<(TransactionModel, nat), DecodeError>(
            (m, encode_transaction(m)->Ok_0.len()),
        ),
{
    lemma_transaction_encodes(m);
    let bytes = transaction_part_bytes_fn(m);
    let s = concat_parts(bytes, 0, 3) + rest;
    let r = |i: nat| concat_parts(bytes, i, 3) + rest;
    let p0: nat = 0;
    let p1 = p0 + bytes(0).len();
    let p2 = p1 + bytes(1).len();
    let p3 = p2 + bytes(2).len();
    assert(s.skip(0) =~= r(0));
    lemma_skip_part(s, p0, bytes, 0, 3, rest);
    lemma_skip_part(s, p1, bytes, 1, 3, rest);
    lemma_skip_part(s, p2, bytes, 2, 3, rest);
    assert(concat_parts(bytes, 3, 3) =~= Seq::<u8>::empty());
    assert(r(3) =~= rest);
    assert(s.len() == p3 + rest.len());
    let a0: TransactionModel = arbitrary();
    let a1 = TransactionModel { kernel_offset: m.kernel_offset, ..a0 };
    let a2 = TransactionModel { stealth_offset: m.stealth_offset, ..a1 };
    let a3 = TransactionModel { body: m.body, ..a2 };
    assert(transaction_stage_0(s, a0, p0) == transaction_stage_1(s, a1, p1)) by {
        reveal(transaction_stage_0);
        lemma_fixed_roundtrip(m.kernel_offset, r(1));
    }
    assert(transaction_stage_1(s, a1, p1) == transaction_stage_2(s, a2, p2)) by {
        reveal(transaction_stage_1);
        lemma_fixed_roundtrip(m.stealth_offset, r(2));
    }
    assert(transaction_stage_2(s, a2, p2) == Ok::<(TransactionModel, nat), DecodeError>((a3, p3))) by {
        reveal(transaction_stage_2);
        lemma_tx_body_roundtrip(m.body, r(3));
    }
    assert(a3 =~= m);
}


// ----- Wire layouts ------------------------------------------------------------------------------

/// Each peg-out coin written as its amount (MWEB varint), then its script as a byte vector.
pub open spec fn pegout_coin_writer() -> spec_fn(PegOutCoinModel) -> Seq<u8> {
    |p: PegOutCoinModel| amount_bytes(p.amount) + byte_vec_bytes(p.script_pub_key)
}

/// Each input written by its encoder.
pub open spec fn input_writer() -> spec_fn(InputModel) -> Seq<u8> {
    |x: InputModel| encode_input(x)->Ok_0
}

/// Each output written by its encoder.
pub open spec fn output_writer() -> spec_fn(OutputModel) -> Seq<u8> {
    |x: OutputModel| encode_output(x)->Ok_0
}

/// Each kernel written by its encoder.
pub open spec fn kernel_writer() -> spec_fn(KernelModel) -> Seq<u8> {
    |x: KernelModel| encode_kernel(x)->Ok_0
}

/// A peg-out coin is written as its amount (MWEB varint), then its script as a byte vector.
pub proof fn lemma_pegout_coin_layout(m: PegOutCoinModel)
    ensures
        <PegOutCoin as Wire>::spec_encode(m) == Ok::<Seq<u8>, (Seq<u8>, EncodeError)>(
            amount_bytes(m.amount) + byte_vec_bytes(m.script_pub_key),
        ),
{
}

/// A well-formed kernel is written as its features byte, then the fee (when bit `0x01` is
/// set), the peg-in (bit `0x02`), the peg-outs as a CompactSize count and each coin's amount and
/// script (bit `0x04`), the lock height as an amount (bit `0x08`), the stealth excess (bit
/// `0x10`), the extra data as a byte vector (bit `0x20`), then the excess and the signature.
#[verifier::rlimit(60)]
#[verifier::spinoff_prover]
pub proof fn lemma_kernel_layout(k: KernelModel)
    requires
        kernel_well_formed(k),
    ensures
        encode_kernel(k) == Ok::<Seq<u8>, (Seq<u8>, EncodeError)>(
            seq![k.features] + (if k.features & 0x01 != 0 {
                amount_bytes(k.fee->0)
            } else {
                Seq::empty()
            }) + (if k.features & 0x02 != 0 {
                amount_bytes(k.pegin->0)
            } else {
                Seq::empty()
            }) + (if k.features & 0x04 != 0 {
                compact_size_bytes(k.pegouts.len() as u64) + concat_map(k.pegouts, pegout_coin_writer())
            } else {
                Seq::empty()
            }) + (if k.features & 0x08 != 0 {
                amount_bytes(k.lock_height->0 as i64)
            } else {
                Seq::empty()
            }) + (if k.features & 0x10 != 0 {
                k.stealth_excess->0
            } else {
                Seq::empty()
            }) + (if k.features & 0x20 != 0 {
                byte_vec_bytes(k.extra_data)
            } else {
                Seq::empty()
            }) + k.excess + k.signature,
        ),
{
    lemma_kernel_encodes(k);
    let f = pegout_coin_writer();
    assert forall|i: int| 0 <= i < k.pegouts.len() implies <PegOutCoin as Wire>::spec_encode(#[trigger] k.pegouts[i])
        == Ok::<Seq<u8>, (Seq<u8>, EncodeError)>(f(k.pegouts[i])) by {}
    lemma_encode_vec_layout::<PegOutCoin>(k.pegouts, f);
    let b = kernel_part_bytes_fn(k);
    assert(concat_parts(b, 0, 9) == b(0) + (b(1) + (b(2) + (b(3) + (b(4) + (b(5) + (b(6) + (b(7) + (b(8)
        + Seq::<u8>::empty()))))))))) by {
        reveal_with_fuel(concat_parts, 10);
    }
    let fe = k.features;
    let p3 = if fe & 0x04 != 0 {
        compact_size_bytes(k.pegouts.len() as u64) + concat_map(k.pegouts, pegout_coin_writer())
    } else {
        Seq::empty()
    };
    assert(b(3) == p3);
    assert(b(6) == (if fe & 0x20 != 0 { byte_vec_bytes(k.extra_data) } else { Seq::empty() }));
    assert(concat_parts(b, 0, 9) =~= b(0) + b(1) + b(2) + b(3) + b(4) + b(5) + b(6) + b(7) + b(8));
}

/// A well-formed input is written as its features byte, the 32-byte output id, the 33-byte
/// commitment, the output public key, the input public key (when bit `0x01` is set), the extra
/// data as a byte vector (bit `0x02`), and the signature.
pub proof fn lemma_input_layout(m: InputModel)
    requires
        input_well_formed(m),
    ensures
        encode_input(m) == Ok::<Seq<u8>, (Seq<u8>, EncodeError)>(
            seq![m.features] + m.output_id + m.commitment + m.output_public_key + (if m.features & 0x01
                != 0 {
                m.input_public_key->0
            } else {
                Seq::empty()
            }) + (if m.features & 0x02 != 0 {
                byte_vec_bytes(m.extra_data)
            } else {
                Seq::empty()
            }) + m.signature,
        ),
        encode_input(m)->Ok_0.subrange(1, 33) == m.output_id,
        encode_input(m)->Ok_0.subrange(33, 66) == m.commitment,
        encode_input(m)->Ok_0.subrange(66, 99) == m.output_public_key,
{
    lemma_input_encodes(m);
    reveal_with_fuel(concat_parts, 8);
    let b = input_part_bytes_fn(m);
    assert(concat_parts(b, 0, 7) =~= b(0) + b(1) + b(2) + b(3) + b(4) + b(5) + b(6));
    let e = encode_input(m)->Ok_0;
    assert(e.subrange(1, 33) =~= m.output_id);
    assert(e.subrange(33, 66) =~= m.commitment);
    assert(e.subrange(66, 99) =~= m.output_public_key);
}

/// A well-formed output message is written as its features byte, then the standard fields
/// (key-exchange key, view tag, masked value as 8 little-endian bytes, masked nonce) when
/// present, then the extra data as a byte vector when bit `0x02` is set.
pub proof fn lemma_output_message_layout(m: OutputMessageModel)
    requires
        output_message_well_formed(m),
    ensures
        encode_output_message(m) == Ok::<Seq<u8>, (Seq<u8>, EncodeError)>(
            seq![m.features] + (match m.standard_fields {
                Some(x) => x.key_exchange_pubkey + seq![x.view_tag] + le_bytes(x.masked_value as nat, 8)
                    + x.masked_nonce,
                None => Seq::empty(),
            }) + (if m.features & 0x02 != 0 {
                byte_vec_bytes(m.extra_data)
            } else {
                Seq::empty()
            }),
        ),
{
    lemma_output_message_encodes(m);
    reveal_with_fuel(concat_parts, 4);
    let b = output_message_part_bytes_fn(m);
    assert(concat_parts(b, 0, 3) =~= b(0) + b(1) + b(2));
}

/// A well-formed output is written as its commitment, sender key, receiver key, message,
/// range proof and signature, in that order.
pub proof fn lemma_output_layout(m: OutputModel)
    requires
        output_well_formed(m),
    ensures
        encode_output(m) == Ok::<Seq<u8>, (Seq<u8>, EncodeError)>(
            m.commitment + m.sender_public_key + m.receiver_public_key + encode_output_message(m.message)->Ok_0
                + m.range_proof + m.signature,
        ),
        encode_output(m)->Ok_0.subrange(33, 66) == m.sender_public_key,
        encode_output(m)->Ok_0.subrange(66, 99) == m.receiver_public_key,
{
    lemma_output_encodes(m);
    reveal_with_fuel(concat_parts, 7);
    let b = output_part_bytes_fn(m);
    assert(concat_parts(b, 0, 6) =~= b(0) + b(1) + b(2) + b(3) + b(4) + b(5));
    let e = encode_output(m)->Ok_0;
    assert(e.subrange(33, 66) =~= m.sender_public_key);
    assert(e.subrange(66, 99) =~= m.receiver_public_key);
}

/// A well-formed body is written as its inputs, its outputs and its kernels, each as a
/// CompactSize count followed by the items' encodings in order.
pub proof fn lemma_tx_body_layout(m: TxBodyModel)
    requires
        tx_body_well_formed(m),
    ensures
        encode_tx_body(m) == Ok::<Seq<u8>, (Seq<u8>, EncodeError)>(
            compact_size_bytes(m.inputs.len() as u64) + concat_map(m.inputs, input_writer())
                + compact_size_bytes(m.outputs.len() as u64) + concat_map(m.outputs, output_writer())
                + compact_size_bytes(m.kernels.len() as u64) + concat_map(m.kernels, kernel_writer()),
        ),
{
    lemma_tx_body_encodes(m);
    reveal_with_fuel(concat_parts, 4);
    let fi = input_writer();
    let fo = output_writer();
    let fk = kernel_writer();
    assert forall|i: int| 0 <= i < m.inputs.len() implies <Input as Wire>::spec_encode(#[trigger] m.inputs[i])
        == Ok::<Seq<u8>, (Seq<u8>, EncodeError)>(fi(m.inputs[i])) by {
        lemma_input_encodes(m.inputs[i]);
    }
    assert forall|i: int| 0 <= i < m.outputs.len() implies <Output as Wire>::spec_encode(#[trigger] m.outputs[i])
        == Ok::<Seq<u8>, (Seq<u8>, EncodeError)>(fo(m.outputs[i])) by {
        lemma_output_encodes(m.outputs[i]);
    }
    assert forall|i: int| 0 <= i < m.kernels.len() implies <Kernel as Wire>::spec_encode(#[trigger] m.kernels[i])
        == Ok::<Seq<u8>, (Seq<u8>, EncodeError)>(fk(m.kernels[i])) by {
        lemma_kernel_encodes(m.kernels[i]);
    }
    lemma_encode_vec_layout::<Input>(m.inputs, fi);
    lemma_encode_vec_layout::<Output>(m.outputs, fo);
    lemma_encode_vec_layout::<Kernel>(m.kernels, fk);
    let b = tx_body_part_bytes_fn(m);
    assert(b(0) == compact_size_bytes(m.inputs.len() as u64) + concat_map(m.inputs, input_writer()));
    assert(b(1) == compact_size_bytes(m.outputs.len() as u64) + concat_map(m.outputs, output_writer()));
    assert(b(2) == compact_size_bytes(m.kernels.len() as u64) + concat_map(m.kernels, kernel_writer()));
    assert(concat_parts(b, 0, 3) == b(0) + (b(1) + (b(2) + Seq::<u8>::empty()))) by {
        reveal_with_fuel(concat_parts, 4);
    }
    assert(concat_parts(b, 0, 3) =~= compact_size_bytes(m.inputs.len() as u64) + concat_map(m.inputs, input_writer())
        + compact_size_bytes(m.outputs.len() as u64) + concat_map(m.outputs, output_writer())
        + compact_size_bytes(m.kernels.len() as u64) + concat_map(m.kernels, kernel_writer()));
}

/// A well-formed transaction is written as its kernel offset, then its stealth offset, then
/// its body.
pub proof fn lemma_transaction_layout(m: TransactionModel)
    requires
        transaction_well_formed(m),
    ensures
        encode_transaction(m) == Ok::<Seq<u8>, (Seq<u8>, EncodeError)>(
            m.kernel_offset + m.stealth_offset + encode_tx_body(m.body)->Ok_0,
        ),
        encode_transaction(m)->Ok_0.take(32) == m.kernel_offset,
        encode_transaction(m)->Ok_0.subrange(32, 64) == m.stealth_offset,
{
    lemma_transaction_encodes(m);
    reveal_with_fuel(concat_parts, 4);
    let b = transaction_part_bytes_fn(m);
    assert(concat_parts(b, 0, 3) =~= b(0) + b(1) + b(2));
    let e = encode_transaction(m)->Ok_0;
    assert(e.take(32) =~= m.kernel_offset);
    assert(e.subrange(32, 64) =~= m.stealth_offset);
}

} // verus!
