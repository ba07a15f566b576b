//! Assembly of a wire MWEB transaction from the typed PSBT maps.
//!
//! Cryptographic validity (range proofs, kernel signatures, balance) is not checked; the
//! assembly only requires the fields the wire types need, with the sizes they need, and public
//! keys that secp256k1 accepts.

use vstd::prelude::*;
use crate::encoding::{le_value, lemma_le_value_bound, lemma_pow256_values, read_le};
use crate::mimblewimble::{
    Input, InputModel, Kernel, KernelModel, Output, OutputMessage, OutputMessageModel,
    OutputMessageStandardFields, OutputModel, PegOutCoin, PegOutCoinModel, StandardFieldsModel,
    Transaction, TransactionModel, TxBody, TxBodyModel,
};
use crate::psbt::input::{MwebInput, MwebInputModel};
use crate::psbt::kernel::{parse_pegout_psbt_value, pegout_coin_from_psbt_value, MwebKernel, MwebKernelModel};
use crate::psbt::output::{MwebOutput, MwebOutputModel};
use crate::psbt::{to_array, to_vec, Error, MapProblem};
use crate::pubkey::{secp256k1_parse_public_key, PublicKey};
use crate::wire::models;

verus! {

/// The results of `f` on each item, in order, or the first error.
pub open spec fn collect<A, B>(xs: Seq<A>, f: spec_fn(A) -> Result<B, Error>) -> Result<Seq<B>, Error>
    decreases xs.len(),
{
    if xs.len() == 0 {
        Ok(Seq::empty())
    } else {
        match collect(xs.drop_last(), f) {
            Err(e) => Err(e),
            Ok(v) => match f(xs.last()) {
                Err(e) => Err(e),
                Ok(b) => Ok(v.push(b)),
            },
        }
    }
}

/// Collecting over `a + b` is collecting over `a`, then over `b`.
pub proof fn lemma_collect_concat<A, B>(a: Seq<A>, b: Seq<A>, f: spec_fn(A) -> Result<B, Error>)
    ensures
        collect(a + b, f) == match collect(a, f) {
            Err(e) => Err(e),
            Ok(v) => match collect(b, f) {
                Err(e) => Err(e),
                Ok(w) => Ok(v + w),
            },
        },
    decreases b.len(),
{
    if b.len() == 0 {
        assert(a + b =~= a);
        if let Ok(v) = collect(a, f) {
            assert(v + Seq::<B>::empty() =~= v);
        }
    } else {
        assert((a + b).drop_last() =~= a + b.drop_last());
        lemma_collect_concat(a, b.drop_last(), f);
        if let Ok(v) = collect(a, f) {
            if let Ok(w) = collect(b.drop_last(), f) {
                if let Ok(x) = f(b.last()) {
                    assert(v + w.push(x) =~= (v + w).push(x));
                }
            }
        }
    }
}

/// A prefix whose collection fails makes the whole collection fail the same way.
proof fn lemma_collect_prefix_err<A, B>(xs: Seq<A>, i: int, f: spec_fn(A) -> Result<B, Error>)
    requires
        0 <= i <= xs.len(),
        collect(xs.take(i), f) is Err,
    ensures
        collect(xs, f) == collect(xs.take(i), f),
{
    assert(xs =~= xs.take(i) + xs.skip(i));
    lemma_collect_concat(xs.take(i), xs.skip(i), f);
}

/// The value of an optional byte vector, or nothing.
pub open spec fn bytes_or_empty(o: Option<Seq<u8>>) -> Seq<u8> {
    match o {
        Some(x) => x,
        None => Seq::empty(),
    }
}

/// An optional public key read with secp256k1: `Ok(None)` when absent, an error when secp256k1
/// rejects it.
pub open spec fn opt_public_key(o: Option<Seq<u8>>) -> Result<Option<Seq<u8>>, Error> {
    match o {
        None => Ok(None),
        Some(b) => match secp256k1_parse_public_key(b) {
            Some(k) => Ok(Some(k)),
            None => Err(Error::InvalidSecp256k1PublicKey),
        },
    }
}

/// A required public key: missing gives `missing`, a key secp256k1 rejects gives
/// [`Error::InvalidSecp256k1PublicKey`].
pub open spec fn required_public_key(o: Option<Seq<u8>>, missing: MapProblem) -> Result<Seq<u8>, Error> {
    match o {
        None => Err(Error::IncompleteMwebMaps(missing)),
        Some(b) => match secp256k1_parse_public_key(b) {
            Some(k) => Ok(k),
            None => Err(Error::InvalidSecp256k1PublicKey),
        },
    }
}

/// A required value of exactly `n` bytes: missing gives `missing`, another size gives `size`.
pub open spec fn required_bytes(o: Option<Seq<u8>>, n: nat, missing: MapProblem, size: MapProblem) -> Result<Seq<u8>, Error> {
    match o {
        None => Err(Error::IncompleteMwebMaps(missing)),
        Some(b) => if b.len() == n {
            Ok(b)
        } else {
            Err(Error::IncompleteMwebMaps(size))
        },
    }
}

/// The wire input of an input map. In order: the output id, the commitment and the output key
/// must be present; secp256k1 must accept the output key and the input key (when present);
/// the signature must be present and 64 bytes. Missing features are 0, missing extra data is
/// empty.
pub open spec fn input_from_map(m: MwebInputModel) -> Result<InputModel, Error> {
    match m.output_id {
        None => Err(Error::IncompleteMwebMaps(MapProblem::InputMissingOutputId)),
        Some(id) => match m.commit {
            None => Err(Error::IncompleteMwebMaps(MapProblem::InputMissingCommit)),
            Some(c) => match required_public_key(m.output_pubkey, MapProblem::InputMissingOutputPubkey) {
                Err(e) => Err(e),
                Ok(opk) => match opt_public_key(m.input_pubkey) {
                    Err(e) => Err(e),
                    Ok(ipk) => match required_bytes(
                        m.signature,
                        64,
                        MapProblem::InputMissingSignature,
                        MapProblem::InputSignatureLength,
                    ) {
                        Err(e) => Err(e),
                        Ok(sig) => Ok(
                            InputModel {
                                features: match m.features {
                                    Some(f) => f,
                                    None => 0,
                                },
                                output_id: id,
                                commitment: c,
                                input_public_key: ipk,
                                output_public_key: opk,
                                extra_data: bytes_or_empty(m.extra_data),
                                signature: sig,
                            },
                        ),
                    },
                },
            },
        },
    }
}

/// The standard fields of an output map: a blob of at least 58 bytes is the key-exchange key
/// (33 bytes, which secp256k1 must accept), the view tag, the masked value (8 bytes,
/// little-endian) and the masked nonce (16 bytes); anything shorter, or none, gives none.
pub open spec fn standard_fields_from_blob(o: Option<Seq<u8>>) -> Result<Option<StandardFieldsModel>, Error> {
    match o {
        Some(blob) => if blob.len() >= 58 {
            match secp256k1_parse_public_key(blob.take(33)) {
                None => Err(Error::InvalidSecp256k1PublicKey),
                Some(ke) => Ok(
                    Some(
                        StandardFieldsModel {
                            key_exchange_pubkey: ke,
                            view_tag: blob[33],
                            masked_value: le_value(blob.subrange(34, 42)) as u64,
                            masked_nonce: blob.subrange(42, 58),
                        },
                    ),
                ),
            }
        } else {
            Ok(None)
        },
        None => Ok(None),
    }
}

/// The wire output of an output map. In order: the commitment must be present; the sender and
/// output keys must be present and accepted by secp256k1; a standard-fields blob of at least 58
/// bytes must hold an accepted key; the range proof must be present and 675 bytes; the
/// signature must be present and 64 bytes. Missing features are 0, missing extra data is empty.
pub open spec fn output_from_map(m: MwebOutputModel) -> Result<OutputModel, Error> {
    match m.commit {
        None => Err(Error::IncompleteMwebMaps(MapProblem::OutputMissingCommit)),
        Some(c) => match required_public_key(m.sender_pubkey, MapProblem::OutputMissingSenderPubkey) {
            Err(e) => Err(e),
            Ok(spk) => match required_public_key(m.output_pubkey, MapProblem::OutputMissingOutputPubkey) {
                Err(e) => Err(e),
                Ok(rpk) => match standard_fields_from_blob(m.standard_fields) {
                    Err(e) => Err(e),
                    Ok(sf) => match required_bytes(
                        m.range_proof,
                        675,
                        MapProblem::OutputMissingRangeProof,
                        MapProblem::OutputRangeProofLength,
                    ) {
                        Err(e) => Err(e),
                        Ok(rp) => match required_bytes(
                            m.signature,
                            64,
                            MapProblem::OutputMissingSignature,
                            MapProblem::OutputSignatureLength,
                        ) {
                            Err(e) => Err(e),
                            Ok(sig) => Ok(
                                OutputModel {
                                    commitment: c,
                                    sender_public_key: spk,
                                    receiver_public_key: rpk,
                                    message: OutputMessageModel {
                                        features: match m.features {
                                            Some(f) => f,
                                            None => 0,
                                        },
                                        standard_fields: sf,
                                        extra_data: bytes_or_empty(m.extra_data),
                                    },
                                    range_proof: rp,
                                    signature: sig,
                                },
                            ),
                        },
                    },
                },
            },
        },
    }
}

/// Decoding of each peg-out value.
pub open spec fn pegout_reader() -> spec_fn(Seq<u8>) -> Result<PegOutCoinModel, Error> {
    |r: Seq<u8>| parse_pegout_psbt_value(r)
}

/// Conversion of each input map.
pub open spec fn input_reader() -> spec_fn(MwebInputModel) -> Result<InputModel, Error> {
    |m: MwebInputModel| input_from_map(m)
}

/// Conversion of each output map.
pub open spec fn output_reader() -> spec_fn(MwebOutputModel) -> Result<OutputModel, Error> {
    |m: MwebOutputModel| output_from_map(m)
}

/// An optional unsigned amount as the signed wire amount (two's complement).
pub open spec fn opt_signed(o: Option<u64>) -> Option<i64> {
    match o {
        Some(a) => Some(a as i64),
        None => None,
    }
}

/// The wire kernel of a kernel map. In order: the excess and the signature must be present;
/// each peg-out value must decode; secp256k1 must accept the stealth excess (when present).
/// Fee and peg-in become signed amounts; missing features are 0, missing extra data is empty.
pub open spec fn kernel_from_map(k: MwebKernelModel) -> Result<KernelModel, Error> {
    match k.excess_commit {
        None => Err(Error::IncompleteMwebMaps(MapProblem::KernelMissingExcess)),
        Some(x) => match k.signature {
            None => Err(Error::IncompleteMwebMaps(MapProblem::KernelMissingSignature)),
            Some(sig) => match collect(k.pegouts, pegout_reader()) {
                Err(e) => Err(e),
                Ok(pegouts) => match opt_public_key(k.stealth_commit) {
                    Err(e) => Err(e),
                    Ok(stealth) => Ok(
                        KernelModel {
                            features: match k.features {
                                Some(f) => f,
                                None => 0,
                            },
                            fee: opt_signed(k.fee),
                            pegin: opt_signed(k.pegin_amount),
                            pegouts,
                            lock_height: k.lock_height,
                            stealth_excess: stealth,
                            extra_data: bytes_or_empty(k.extra_data),
                            excess: x,
                            signature: sig,
                        },
                    ),
                },
            },
        },
    }
}

/// Conversion of each kernel map.
pub open spec fn kernel_reader() -> spec_fn(MwebKernelModel) -> Result<KernelModel, Error> {
    |k: MwebKernelModel| kernel_from_map(k)
}

/// The wire transaction of the maps: the inputs, then the outputs, then the kernels, each in
/// order; the first map that cannot be converted decides the error.
pub open spec fn assemble(
    kernel_offset: Seq<u8>,
    stealth_offset: Seq<u8>,
    inputs: Seq<MwebInputModel>,
    outputs: Seq<MwebOutputModel>,
    kernels: Seq<MwebKernelModel>,
) -> Result<TransactionModel, Error> {
    match collect(inputs, input_reader()) {
        Err(e) => Err(e),
        Ok(ins) => match collect(outputs, output_reader()) {
            Err(e) => Err(e),
            Ok(outs) => match collect(kernels, kernel_reader()) {
                Err(e) => Err(e),
                Ok(ks) => Ok(
                    TransactionModel {
                        kernel_offset,
                        stealth_offset,
                        body: TxBodyModel { inputs: ins, outputs: outs, kernels: ks },
                    },
                ),
            },
        },
    }
}

fn opt_bytes_or_empty(o: &Option<Vec<u8>>) -> (v: Vec<u8>)
    ensures
        v@ == bytes_or_empty(crate::psbt::opt_bytes_view(*o)),
{
    match o {
        Some(x) => to_vec(x.as_slice()),
        None => Vec::new(),
    }
}

fn read_opt_public_key(o: &Option<Vec<u8>>) -> (res: Result<Option<PublicKey>, Error>)
    ensures
        match opt_public_key(crate::psbt::opt_bytes_view(*o)) {
            Ok(k) => res matches Ok(pk) && crate::mimblewimble::opt_key_model(pk) == k,
            Err(e) => res == Err::<Option<PublicKey>, Error>(e),
        },
{
    match o {
        None => Ok(None),
        Some(b) => match PublicKey::from_slice(b.as_slice()) {
            Some(k) => Ok(Some(k)),
            None => Err(Error::InvalidSecp256k1PublicKey),
        },
    }
}

fn read_required_public_key(o: &Option<Vec<u8>>, missing: MapProblem) -> (res: Result<PublicKey, Error>)
    ensures
        match required_public_key(crate::psbt::opt_bytes_view(*o), missing) {
            Ok(k) => res matches Ok(pk) && pk@ == k,
            Err(e) => res == Err::<PublicKey, Error>(e),
        },
{
    match o {
        None => Err(Error::IncompleteMwebMaps(missing)),
        Some(b) => match PublicKey::from_slice(b.as_slice()) {
            Some(k) => Ok(k),
            None => Err(Error::InvalidSecp256k1PublicKey),
        },
    }
}

/// The wire input of an input map.
pub fn wire_input_from_map(inp: &MwebInput) -> (res: Result<Input, Error>)
    ensures
        match input_from_map(inp@) {
            Ok(m) => res matches Ok(x) && x@ == m,
            Err(e) => res == Err::<Input, Error>(e),
        },
{
    let output_id = match inp.output_id {
        Some(id) => id,
        None => return Err(Error::IncompleteMwebMaps(MapProblem::InputMissingOutputId)),
    };
    let commitment = match inp.commit {
        Some(c) => c,
        None => return Err(Error::IncompleteMwebMaps(MapProblem::InputMissingCommit)),
    };
    let features = match inp.features {
        Some(f) => f,
        None => 0,
    };
    let output_public_key = match read_required_public_key(
        &inp.output_pubkey,
        MapProblem::InputMissingOutputPubkey,
    ) {
        Ok(k) => k,
        Err(e) => return Err(e),
    };
    let input_public_key = match read_opt_public_key(&inp.input_pubkey) {
        Ok(k) => k,
        Err(e) => return Err(e),
    };
    let sig = match &inp.signature {
        Some(s) => s,
        None => return Err(Error::IncompleteMwebMaps(MapProblem::InputMissingSignature)),
    };
    if sig.len() != 64 {
        return Err(Error::IncompleteMwebMaps(MapProblem::InputSignatureLength));
    }
    let signature = to_array::<64>(sig.as_slice());
    let input = Input {
        features,
        output_id,
        commitment,
        input_public_key,
        output_public_key,
        extra_data: opt_bytes_or_empty(&inp.extra_data),
        signature,
    };
    assert(input@ =~= input_from_map(inp@)->Ok_0);
    Ok(input)
}

fn read_standard_fields(o: &Option<Vec<u8>>) -> (res: Result<Option<OutputMessageStandardFields>, Error>)
    ensures
        match standard_fields_from_blob(crate::psbt::opt_bytes_view(*o)) {
            Ok(sf) => res matches Ok(x) && crate::mimblewimble::opt_standard_fields_model(x) == sf,
            Err(e) => res == Err::<Option<OutputMessageStandardFields>, Error>(e),
        },
{
    match o {
        Some(blob) => {
            if blob.len() >= 58 {
                let key_part = vstd::slice::slice_subrange(blob.as_slice(), 0, 33);
                assert(key_part@ =~= blob@.take(33));
                let ke = match PublicKey::from_slice(key_part) {
                    Some(k) => k,
                    None => return Err(Error::InvalidSecp256k1PublicKey),
                };
                let view_tag = blob[33];
                let masked_value = read_le(blob.as_slice(), 34, 8);
                let nonce_part = vstd::slice::slice_subrange(blob.as_slice(), 42, 58);
                let masked_nonce = to_array::<16>(nonce_part);
                let sf = OutputMessageStandardFields { key_exchange_pubkey: ke, view_tag, masked_value, masked_nonce };
                assert(sf@ =~= standard_fields_from_blob(crate::psbt::opt_bytes_view(*o))->Ok_0->Some_0);
                Ok(Some(sf))
            } else {
                Ok(None)
            }
        },
        None => Ok(None),
    }
}

/// The wire output of an output map.
pub fn wire_output_from_map(out: &MwebOutput) -> (res: Result<Output, Error>)
    ensures
        match output_from_map(out@) {
            Ok(m) => res matches Ok(x) && x@ == m,
            Err(e) => res == Err::<Output, Error>(e),
        },
{
    let commitment = match out.commit {
        Some(c) => c,
        None => return Err(Error::IncompleteMwebMaps(MapProblem::OutputMissingCommit)),
    };
    let sender_public_key = match read_required_public_key(
        &out.sender_pubkey,
        MapProblem::OutputMissingSenderPubkey,
    ) {
        Ok(k) => k,
        Err(e) => return Err(e),
    };
    let receiver_public_key = match read_required_public_key(
        &out.output_pubkey,
        MapProblem::OutputMissingOutputPubkey,
    ) {
        Ok(k) => k,
        Err(e) => return Err(e),
    };
    let features = match out.features {
        Some(f) => f,
        None => 0,
    };
    let standard_fields = match read_standard_fields(&out.standard_fields) {
        Ok(sf) => sf,
        Err(e) => return Err(e),
    };
    let rp = match &out.range_proof {
        Some(r) => r,
        None => return Err(Error::IncompleteMwebMaps(MapProblem::OutputMissingRangeProof)),
    };
    if rp.len() != 675 {
        return Err(Error::IncompleteMwebMaps(MapProblem::OutputRangeProofLength));
    }
    let range_proof = to_array::<675>(rp.as_slice());
    let sig = match &out.signature {
        Some(s) => s,
        None => return Err(Error::IncompleteMwebMaps(MapProblem::OutputMissingSignature)),
    };
    if sig.len() != 64 {
        return Err(Error::IncompleteMwebMaps(MapProblem::OutputSignatureLength));
    }
    let signature = to_array::<64>(sig.as_slice());
    let output = Output {
        commitment,
        sender_public_key,
        receiver_public_key,
        message: OutputMessage { features, standard_fields, extra_data: opt_bytes_or_empty(&out.extra_data) },
        range_proof,
        signature,
    };
    assert(output@ =~= output_from_map(out@)->Ok_0);
    Ok(output)
}

/// The wire kernel of a kernel map.
pub fn wire_kernel_from_map(k: &MwebKernel) -> (res: Result<Kernel, Error>)
    ensures
        match kernel_from_map(k@) {
            Ok(m) => res matches Ok(x) && x@ == m,
            Err(e) => res == Err::<Kernel, Error>(e),
        },
{
    let excess = match k.excess_commit {
        Some(x) => x,
        None => return Err(Error::IncompleteMwebMaps(MapProblem::KernelMissingExcess)),
    };
    let signature = match k.signature {
        Some(s) => s,
        None => return Err(Error::IncompleteMwebMaps(MapProblem::KernelMissingSignature)),
    };
    let ghost raws = models(k.pegouts@);
    let ghost f = pegout_reader();
    let mut pegouts: Vec<PegOutCoin> = Vec::new();
    let mut i: usize = 0;
    assert(raws.take(0) =~= Seq::<Seq<u8>>::empty());
    assert(models(pegouts@) =~= Seq::<PegOutCoinModel>::empty());
    while i < k.pegouts.len()
        invariant
            i <= k.pegouts@.len(),
            raws == models(k.pegouts@),
            f == pegout_reader(),
            k.excess_commit is Some,
            k.signature is Some,
            collect(raws.take(i as int), f) == Ok::<Seq<PegOutCoinModel>, Error>(models(pegouts@)),
        decreases k.pegouts@.len() - i,
    {
        assert(raws[i as int] == k.pegouts@[i as int]@);
        assert(raws.take(i + 1).drop_last() =~= raws.take(i as int));
        match pegout_coin_from_psbt_value(k.pegouts[i].as_slice()) {
            Ok(c) => {
                let ghost before = models(pegouts@);
                pegouts.push(c);
                assert(models(pegouts@) =~= before.push(c@));
            },
            Err(e) => {
                proof {
                    lemma_collect_prefix_err(raws, i + 1, f);
                }
                return Err(e);
            },
        }
        i = i + 1;
    }
    assert(raws.take(k.pegouts@.len() as int) =~= raws);
    let stealth_excess = match read_opt_public_key(&k.stealth_commit) {
        Ok(s) => s,
        Err(e) => return Err(e),
    };
    let kernel = Kernel {
        features: match k.features {
            Some(f) => f,
            None => 0,
        },
        fee: match k.fee {
            Some(f) => Some(f as i64),
            None => None,
        },
        pegin: match k.pegin_amount {
            Some(a) => Some(a as i64),
            None => None,
        },
        pegouts,
        lock_height: k.lock_height,
        stealth_excess,
        extra_data: opt_bytes_or_empty(&k.extra_data),
        excess,
        signature,
    };
    assert(kernel@ =~= kernel_from_map(k@)->Ok_0);
    Ok(kernel)
}

/// Assemble a wire [`Transaction`] from typed PSBT MWEB maps.
///
/// Cryptographic validity (range proofs, kernel signatures, balance) is not checked.
pub fn assemble_mw_tx(
    kernel_offset: [u8; 32],
    stealth_offset: [u8; 32],
    inputs: &[MwebInput],
    outputs: &[MwebOutput],
    kernels: &[MwebKernel],
) -> (res: Result<Transaction, Error>)
    ensures
        match assemble(kernel_offset@, stealth_offset@, models(inputs@), models(outputs@), models(kernels@)) {
            Ok(t) => res matches Ok(x) && x@ == t,
            Err(e) => res == Err::<Transaction, Error>(e),
        },
{
    let ghost ims = models(inputs@);
    let ghost oms = models(outputs@);
    let ghost kms = models(kernels@);
    let ghost fi = input_reader();
    let ghost fo = output_reader();
    let ghost fk = kernel_reader();
    let mut wire_inputs: Vec<Input> = Vec::new();
    let mut i: usize = 0;
    assert(ims.take(0) =~= Seq::<MwebInputModel>::empty());
    assert(models(wire_inputs@) =~= Seq::<InputModel>::empty());
    while i < inputs.len()
        invariant
            i <= inputs@.len(),
            ims == models(inputs@),
            fi == input_reader(),
            collect(ims.take(i as int), fi) == Ok::<Seq<InputModel>, Error>(models(wire_inputs@)),
        decreases inputs@.len() - i,
    {
        assert(ims[i as int] == inputs@[i as int]@);
        assert(ims.take(i + 1).drop_last() =~= ims.take(i as int));
        match wire_input_from_map(&inputs[i]) {
            Ok(x) => {
                let ghost before = models(wire_inputs@);
                wire_inputs.push(x);
                assert(models(wire_inputs@) =~= before.push(x@));
            },
            Err(e) => {
                proof {
                    lemma_collect_prefix_err(ims, i + 1, fi);
                }
                return Err(e);
            },
        }
        i = i + 1;
    }
    assert(ims.take(inputs@.len() as int) =~= ims);
    let mut wire_outputs: Vec<Output> = Vec::new();
    let mut j: usize = 0;
    assert(oms.take(0) =~= Seq::<MwebOutputModel>::empty());
    assert(models(wire_outputs@) =~= Seq::<OutputModel>::empty());
    while j < outputs.len()
        invariant
            j <= outputs@.len(),
            oms == models(outputs@),
            fo == output_reader(),
            fi == input_reader(),
            ims == models(inputs@),
            collect(ims, fi) == Ok::<Seq<InputModel>, Error>(models(wire_inputs@)),
            collect(oms.take(j as int), fo) == Ok::<Seq<OutputModel>, Error>(models(wire_outputs@)),
        decreases outputs@.len() - j,
    {
        assert(oms[j as int] == outputs@[j as int]@);
        assert(oms.take(j + 1).drop_last() =~= oms.take(j as int));
        match wire_output_from_map(&outputs[j]) {
            Ok(x) => {
                let ghost before = models(wire_outputs@);
                wire_outputs.push(x);
                assert(models(wire_outputs@) =~= before.push(x@));
            },
            Err(e) => {
                proof {
                    lemma_collect_prefix_err(oms, j + 1, fo);
                }
                return Err(e);
            },
        }
        j = j + 1;
    }
    assert(oms.take(outputs@.len() as int) =~= oms);
    let mut wire_kernels: Vec<Kernel> = Vec::new();
    let mut n: usize = 0;
    assert(kms.take(0) =~= Seq::<MwebKernelModel>::empty());
    assert(models(wire_kernels@) =~= Seq::<KernelModel>::empty());
    while n < kernels.len()
        invariant
            n <= kernels@.len(),
            kms == models(kernels@),
            fk == kernel_reader(),
            fi == input_reader(),
            ims == models(inputs@),
            collect(ims, fi) == Ok::<Seq<InputModel>, Error>(models(wire_inputs@)),
            fo == output_reader(),
            oms == models(outputs@),
            collect(oms, fo) == Ok::<Seq<OutputModel>, Error>(models(wire_outputs@)),
            collect(kms.take(n as int), fk) == Ok::<Seq<KernelModel>, Error>(models(wire_kernels@)),
        decreases kernels@.len() - n,
    {
        assert(kms[n as int] == kernels@[n as int]@);
        assert(kms.take(n + 1).drop_last() =~= kms.take(n as int));
        match wire_kernel_from_map(&kernels[n]) {
            Ok(x) => {
                let ghost before = models(wire_kernels@);
                wire_kernels.push(x);
                assert(models(wire_kernels@) =~= before.push(x@));
            },
            Err(e) => {
                proof {
                    lemma_collect_prefix_err(kms, n + 1, fk);
                }
                return Err(e);
            },
        }
        n = n + 1;
    }
    assert(kms.take(kernels@.len() as int) =~= kms);
    let tx = Transaction {
        kernel_offset,
        stealth_offset,
        body: TxBody { inputs: wire_inputs, outputs: wire_outputs, kernels: wire_kernels },
    };
    Ok(tx)
}

/// Collecting succeeds exactly when `f` succeeds on every item, and then gives each item's
/// result in order; otherwise it fails with the error of the first item on which `f` fails.
pub proof fn lemma_collect_items<A, B>(xs: Seq<A>, f: spec_fn(A) -> Result<B, Error>)
    ensures
        collect(xs, f) is Ok <==> (forall|i: int| 0 <= i < xs.len() ==> f(#[trigger] xs[i]) is Ok),
        collect(xs, f) matches Ok(v) ==> v.len() == xs.len() && (forall|i: int|
            0 <= i < xs.len() ==> f(#[trigger] xs[i]) == Ok::<B, Error>(v[i])),
        collect(xs, f) matches Err(e) ==> exists|i: int|
            0 <= i < xs.len() && f(#[trigger] xs[i]) == Err::<B, Error>(e) && (forall|j: int|
                0 <= j < i ==> f(#[trigger] xs[j]) is Ok),
    decreases xs.len(),
{
    if xs.len() > 0 {
        let init = xs.drop_last();
        lemma_collect_items(init, f);
        assert forall|i: int| 0 <= i < init.len() implies #[trigger] f(init[i]) == f(xs[i]) by {
            assert(init[i] == xs[i]);
        }
        let n = xs.len() - 1;
        assert(xs[n] == xs.last());
        match collect(init, f) {
            Err(e) => {
                let i = choose|i: int|
                    0 <= i < init.len() && #[trigger] f(init[i]) == Err::<B, Error>(e) && (forall|j: int|
                        0 <= j < i ==> (#[trigger] f(init[j])) is Ok);
                assert(f(xs[i]) == Err::<B, Error>(e));
                assert forall|j: int| 0 <= j < i implies (#[trigger] f(xs[j])) is Ok by {
                    assert(f(init[j]) is Ok);
                }
            },
            Ok(v) => {
                match f(xs.last()) {
                    Err(e) => {
                        assert forall|j: int| 0 <= j < n implies (#[trigger] f(xs[j])) is Ok by {
                            assert(f(init[j]) is Ok);
                        }
                        assert(f(xs[n]) == Err::<B, Error>(e));
                    },
                    Ok(b) => {
                        assert forall|i: int| 0 <= i < xs.len() implies #[trigger] f(xs[i]) == Ok::<B, Error>(v.push(b)[i]) by {
                            if i < n {
                                assert(f(init[i]) == Ok::<B, Error>(v[i]));
                            }
                        }
                    },
                }
            },
        }
    }
}

/// Assembly succeeds exactly when every input, output and kernel map converts; the transaction
/// then carries the two offsets and the converted maps in order. Otherwise the error is that of
/// the first map that does not convert, inputs before outputs before kernels.
pub proof fn lemma_assemble_maps(
    kernel_offset: Seq<u8>,
    stealth_offset: Seq<u8>,
    inputs: Seq<MwebInputModel>,
    outputs: Seq<MwebOutputModel>,
    kernels: Seq<MwebKernelModel>,
)
    ensures
        assemble(kernel_offset, stealth_offset, inputs, outputs, kernels) is Ok <==> {
            &&& forall|i: int| 0 <= i < inputs.len() ==> (#[trigger] input_from_map(inputs[i])) is Ok
            &&& forall|i: int| 0 <= i < outputs.len() ==> (#[trigger] output_from_map(outputs[i])) is Ok
            &&& forall|i: int| 0 <= i < kernels.len() ==> (#[trigger] kernel_from_map(kernels[i])) is Ok
        },
        assemble(kernel_offset, stealth_offset, inputs, outputs, kernels) matches Ok(t) ==> {
            &&& t.kernel_offset == kernel_offset
            &&& t.stealth_offset == stealth_offset
            &&& t.body.inputs.len() == inputs.len()
            &&& t.body.outputs.len() == outputs.len()
            &&& t.body.kernels.len() == kernels.len()
            &&& forall|i: int| 0 <= i < inputs.len() ==> #[trigger] input_from_map(inputs[i]) == Ok::<InputModel, Error>(t.body.inputs[i])
            &&& forall|i: int| 0 <= i < outputs.len() ==> #[trigger] output_from_map(outputs[i]) == Ok::<OutputModel, Error>(t.body.outputs[i])
            &&& forall|i: int| 0 <= i < kernels.len() ==> #[trigger] kernel_from_map(kernels[i]) == Ok::<KernelModel, Error>(t.body.kernels[i])
        },
        assemble(kernel_offset, stealth_offset, inputs, outputs, kernels) matches Err(e) ==> {
            ||| exists|i: int|
                0 <= i < inputs.len() && #[trigger] input_from_map(inputs[i]) == Err::<InputModel, Error>(e)
                    && forall|j: int| 0 <= j < i ==> (#[trigger] input_from_map(inputs[j])) is Ok
            ||| (forall|j: int| 0 <= j < inputs.len() ==> (#[trigger] input_from_map(inputs[j])) is Ok) && exists|i: int|
                0 <= i < outputs.len() && #[trigger] output_from_map(outputs[i]) == Err::<OutputModel, Error>(e)
                    && forall|j: int| 0 <= j < i ==> (#[trigger] output_from_map(outputs[j])) is Ok
            ||| (forall|j: int| 0 <= j < inputs.len() ==> (#[trigger] input_from_map(inputs[j])) is Ok)
                && (forall|j: int| 0 <= j < outputs.len() ==> (#[trigger] output_from_map(outputs[j])) is Ok)
                && exists|i: int|
                0 <= i < kernels.len() && #[trigger] kernel_from_map(kernels[i]) == Err::<KernelModel, Error>(e)
                    && forall|j: int| 0 <= j < i ==> (#[trigger] kernel_from_map(kernels[j])) is Ok
        },
{
    lemma_collect_items(inputs, input_reader());
    lemma_collect_items(outputs, output_reader());
    lemma_collect_items(kernels, kernel_reader());
}

/// What a converted input holds: the output id, commitment and signature of the map; the
/// output key and input key parsed by secp256k1 from the map's output key and input key; the
/// map's features (0 when missing) and extra data (empty when missing).
pub proof fn lemma_input_from_map_fields(m: MwebInputModel)
    ensures
        input_from_map(m) matches Ok(x) ==> {
            &&& m.output_id == Some(x.output_id)
            &&& m.commit == Some(x.commitment)
            &&& m.output_pubkey is Some
            &&& secp256k1_parse_public_key(m.output_pubkey->0) == Some(x.output_public_key)
            &&& (m.input_pubkey is None ==> x.input_public_key is None)
            &&& (m.input_pubkey matches Some(b) ==> secp256k1_parse_public_key(b) == x.input_public_key)
            &&& m.signature == Some(x.signature)
            &&& x.signature.len() == 64
            &&& (m.features matches Some(f) ==> x.features == f)
            &&& (m.features is None ==> x.features == 0)
            &&& (m.extra_data matches Some(e) ==> x.extra_data == e)
            &&& (m.extra_data is None ==> x.extra_data == Seq::<u8>::empty())
        },
{
}

/// What a converted output holds: the commitment, range proof and signature of the map; the
/// sender key parsed by secp256k1 from the map's sender key and the receiver key parsed from the
/// map's output key; the map's features (0 when missing) and extra data (empty when missing);
/// and, from a standard-fields blob of at least 58 bytes, the key-exchange key parsed from its
/// first 33 bytes, the view tag at byte 33, the masked value in bytes 34..42 (little-endian)
/// and the masked nonce in bytes 42..58.
pub proof fn lemma_output_from_map_fields(m: MwebOutputModel)
    ensures
        output_from_map(m) matches Ok(o) ==> {
            &&& m.commit == Some(o.commitment)
            &&& m.sender_pubkey is Some
            &&& secp256k1_parse_public_key(m.sender_pubkey->0) == Some(o.sender_public_key)
            &&& m.output_pubkey is Some
            &&& secp256k1_parse_public_key(m.output_pubkey->0) == Some(o.receiver_public_key)
            &&& m.range_proof == Some(o.range_proof)
            &&& o.range_proof.len() == 675
            &&& m.signature == Some(o.signature)
            &&& o.signature.len() == 64
            &&& (m.features matches Some(f) ==> o.message.features == f)
            &&& (m.features is None ==> o.message.features == 0)
            &&& (m.extra_data matches Some(e) ==> o.message.extra_data == e)
            &&& (m.extra_data is None ==> o.message.extra_data == Seq::<u8>::empty())
            &&& (m.standard_fields is Some && m.standard_fields->0.len() >= 58 ==> {
                let b = m.standard_fields->0;
                &&& o.message.standard_fields is Some
                &&& secp256k1_parse_public_key(b.take(33)) == Some(
                    o.message.standard_fields->0.key_exchange_pubkey,
                )
                &&& o.message.standard_fields->0.view_tag == b[33]
                &&& o.message.standard_fields->0.masked_value == le_value(b.subrange(34, 42))
                &&& o.message.standard_fields->0.masked_nonce == b.subrange(42, 58)
            })
            &&& (m.standard_fields is Some && m.standard_fields->0.len() < 58 ==> o.message.standard_fields is None)
            &&& (m.standard_fields is None ==> o.message.standard_fields is None)
        },
{
    if let Some(b) = m.standard_fields {
        if b.len() >= 58 {
            lemma_pow256_values();
            lemma_le_value_bound(b.subrange(34, 42));
        }
    }
}

/// What a converted kernel holds: the excess and signature of the map; each peg-out decoded,
/// in order, from the map's peg-out values; the stealth excess parsed by secp256k1 from the
/// map's stealth excess; fee and peg-in as the signed amounts of the map's values; the map's
/// lock height; features (0 when missing) and extra data (empty when missing).
pub proof fn lemma_kernel_from_map_fields(k: MwebKernelModel)
    ensures
        kernel_from_map(k) matches Ok(x) ==> {
            &&& k.excess_commit == Some(x.excess)
            &&& k.signature == Some(x.signature)
            &&& x.pegouts.len() == k.pegouts.len()
            &&& (forall|i: int| 0 <= i < k.pegouts.len() ==> #[trigger] parse_pegout_psbt_value(k.pegouts[i]) == Ok::<PegOutCoinModel, Error>(x.pegouts[i]))
            &&& (k.stealth_commit is None ==> x.stealth_excess is None)
            &&& (k.stealth_commit matches Some(b) ==> secp256k1_parse_public_key(b) == x.stealth_excess)
            &&& (k.fee matches Some(f) ==> x.fee == Some(f as i64))
            &&& (k.fee is None ==> x.fee is None)
            &&& (k.pegin_amount matches Some(a) ==> x.pegin == Some(a as i64))
            &&& (k.pegin_amount is None ==> x.pegin is None)
            &&& x.lock_height == k.lock_height
            &&& (k.features matches Some(f) ==> x.features == f)
            &&& (k.features is None ==> x.features == 0)
            &&& (k.extra_data matches Some(e) ==> x.extra_data == e)
            &&& (k.extra_data is None ==> x.extra_data == Seq::<u8>::empty())
        },
{
    lemma_collect_items(k.pegouts, pegout_reader());
}

} // verus!
