//! One MWEB kernel PSBT map (ltcd `PKernel`).

use vstd::prelude::*;
use crate::encoding::{
    append_bytes, byte_vec_bytes, compact_size_bytes, le_bytes, le_value, lemma_byte_vec_roundtrip, lemma_le_roundtrip,
    lemma_pow256_values, parse_byte_vec, read_byte_vec, read_le, write_byte_vec, DecodeError,
    ParseFailure,
};
use crate::mimblewimble::{PegOutCoin, PegOutCoinModel};
use crate::psbt::raw::{
    decode_pair, lemma_pair_roundtrip, lemma_parse_pair_len, lemma_separator, pair_bytes,
    pair_fits, parse_pair, serialize_pair, PairModel, MAX_VEC_SIZE,
};
use crate::psbt::types::{
    MWEB_KERNEL_EXCESS_COMMIT_TYPE, MWEB_KERNEL_EXTRA_DATA_TYPE, MWEB_KERNEL_FEATURES_TYPE,
    MWEB_KERNEL_FEE_TYPE, MWEB_KERNEL_LOCK_HEIGHT_TYPE, MWEB_KERNEL_PEGIN_AMOUNT_TYPE,
    MWEB_KERNEL_PEGOUT_TYPE, MWEB_KERNEL_SIGNATURE_TYPE, MWEB_KERNEL_STEALTH_COMMIT_TYPE,
};
use crate::psbt::{le_vec, opt_bytes_view, opt_le_bytes, to_array, to_vec, Error, MapProblem};
use crate::wire::{lemma_skip_skip, models};

verus! {

broadcast use lemma_skip_skip;

/// One MWEB kernel PSBT map (ltcd `PKernel`).
#[derive(Debug, Clone, PartialEq, Eq, Hash)]
pub struct MwebKernel {
    /// Excess commitment.
    pub excess_commit: Option<[u8; 33]>,
    /// Stealth excess (33-byte compressed pubkey).
    pub stealth_commit: Option<Vec<u8>>,
    /// Fee (litoshis).
    pub fee: Option<u64>,
    /// Peg-in amount.
    pub pegin_amount: Option<u64>,
    /// Peg-out PSBT values (ltcd: repeated type-`4` KVs; each value is TxOut wire:
    /// 8-byte LE amount || script).
    pub pegouts: Vec<Vec<u8>>,
    /// Lock height.
    pub lock_height: Option<u32>,
    /// Features.
    pub features: Option<u8>,
    /// Extra data.
    pub extra_data: Option<Vec<u8>>,
    /// Signature (64 bytes).
    pub signature: Option<[u8; 64]>,
    /// Unknown / proprietary pairs preserved for ltcd map round-trips
    /// (`key` = type byte || keydata).
    pub unknowns: Vec<(Vec<u8>, Vec<u8>)>,
}

#[verifier::ext_equal]
pub struct MwebKernelModel {
    pub excess_commit: Option<Seq<u8>>,
    pub stealth_commit: Option<Seq<u8>>,
    pub fee: Option<u64>,
    pub pegin_amount: Option<u64>,
    pub pegouts: Seq<Seq<u8>>,
    pub lock_height: Option<u32>,
    pub features: Option<u8>,
    pub extra_data: Option<Seq<u8>>,
    pub signature: Option<Seq<u8>>,
    pub unknowns: Seq<(Seq<u8>, Seq<u8>)>,
}

impl View for MwebKernel {
    type V = MwebKernelModel;

    open spec fn view(&self) -> MwebKernelModel {
        MwebKernelModel {
            excess_commit: opt_bytes_view(self.excess_commit),
            stealth_commit: opt_bytes_view(self.stealth_commit),
            fee: self.fee,
            pegin_amount: self.pegin_amount,
            pegouts: models(self.pegouts@),
            lock_height: self.lock_height,
            features: self.features,
            extra_data: opt_bytes_view(self.extra_data),
            signature: opt_bytes_view(self.signature),
            unknowns: models(self.unknowns@),
        }
    }
}

/// The map with no field set.
pub open spec fn empty_kernel_map() -> MwebKernelModel {
    MwebKernelModel {
        excess_commit: None,
        stealth_commit: None,
        fee: None,
        pegin_amount: None,
        pegouts: Seq::empty(),
        lock_height: None,
        features: None,
        extra_data: None,
        signature: None,
        unknowns: Seq::empty(),
    }
}

impl Default for MwebKernel {
    fn default() -> (k: MwebKernel)
        ensures
            k@ == empty_kernel_map(),
    {
        let k = MwebKernel {
            excess_commit: None,
            stealth_commit: None,
            fee: None,
            pegin_amount: None,
            pegouts: Vec::new(),
            lock_height: None,
            features: None,
            extra_data: None,
            signature: None,
            unknowns: Vec::new(),
        };
        assert(k@ =~= empty_kernel_map());
        k
    }
}

// ----- Typed pairs -------------------------------------------------------------------------------

/// One pair with empty key data when the field is set.
pub open spec fn opt_kv(ty: u8, v: Option<Seq<u8>>) -> Seq<PairModel> {
    match v {
        Some(x) => seq![(ty, Seq::<u8>::empty(), x)],
        None => Seq::empty(),
    }
}

/// The peg-out pairs: key data is the peg-out's index as one byte.
pub open spec fn pegout_kvs(ps: Seq<Seq<u8>>) -> Seq<PairModel> {
    Seq::new(ps.len(), |i: int| (MWEB_KERNEL_PEGOUT_TYPE, seq![i as u8], ps[i]))
}

pub open spec fn opt_lock_height_bytes(o: Option<u32>) -> Option<Seq<u8>> {
    match o {
        Some(h) => Some(le_bytes(h as nat, 4)),
        None => None,
    }
}

pub open spec fn opt_features_bytes(o: Option<u8>) -> Option<Seq<u8>> {
    match o {
        Some(f) => Some(seq![f]),
        None => None,
    }
}

/// The kernel map as `(field type, key data, value)` triples, in field order: excess, stealth
/// excess, fee and peg-in (8 bytes little-endian), the peg-outs, lock height (4 bytes
/// little-endian), features, extra data, signature.
pub open spec fn kernel_kv_pairs(m: MwebKernelModel) -> Seq<PairModel> {
    opt_kv(MWEB_KERNEL_EXCESS_COMMIT_TYPE, m.excess_commit) + opt_kv(
        MWEB_KERNEL_STEALTH_COMMIT_TYPE,
        m.stealth_commit,
    ) + opt_kv(MWEB_KERNEL_FEE_TYPE, opt_le_bytes(m.fee, 8)) + opt_kv(
        MWEB_KERNEL_PEGIN_AMOUNT_TYPE,
        opt_le_bytes(m.pegin_amount, 8),
    ) + pegout_kvs(m.pegouts) + opt_kv(
        MWEB_KERNEL_LOCK_HEIGHT_TYPE,
        opt_lock_height_bytes(m.lock_height),
    ) + opt_kv(MWEB_KERNEL_FEATURES_TYPE, opt_features_bytes(m.features)) + opt_kv(
        MWEB_KERNEL_EXTRA_DATA_TYPE,
        m.extra_data,
    ) + opt_kv(MWEB_KERNEL_SIGNATURE_TYPE, m.signature)
}

/// The same pairs without their key data.
pub open spec fn drop_key_data(ps: Seq<PairModel>) -> Seq<(u8, Seq<u8>)> {
    ps.map_values(|t: PairModel| (t.0, t.2))
}

fn push_opt_kv(pairs: &mut Vec<(u8, Vec<u8>, Vec<u8>)>, ty: u8, v: Option<Vec<u8>>)
    ensures
        models(final(pairs)@) == models(old(pairs)@) + opt_kv(ty, opt_bytes_view(v)),
{
    match v {
        Some(x) => {
            let ghost xv = x@;
            pairs.push((ty, Vec::new(), x));
            assert(models(pairs@) =~= models(old(pairs)@) + opt_kv(ty, Some(xv)));
        },
        None => {
            assert(models(pairs@) =~= models(old(pairs)@) + Seq::<PairModel>::empty());
        },
    }
}

fn push_pegout_kvs(pairs: &mut Vec<(u8, Vec<u8>, Vec<u8>)>, pegouts: &Vec<Vec<u8>>)
    ensures
        models(final(pairs)@) == models(old(pairs)@) + pegout_kvs(models(pegouts@)),
{
    let ghost ps = models(pegouts@);
    let mut i: usize = 0;
    assert(pegout_kvs(ps.take(0)) =~= Seq::<PairModel>::empty());
    assert(models(pairs@) =~= models(old(pairs)@) + pegout_kvs(ps.take(0)));
    while i < pegouts.len()
        invariant
            i <= pegouts@.len(),
            ps == models(pegouts@),
            models(pairs@) == models(old(pairs)@) + pegout_kvs(ps.take(i as int)),
        decreases pegouts@.len() - i,
    {
        let ghost before = models(pairs@);
        let mut key: Vec<u8> = Vec::new();
        key.push(i as u8);
        let value = to_vec(pegouts[i].as_slice());
        pairs.push((MWEB_KERNEL_PEGOUT_TYPE, key, value));
        proof {
            assert(pegout_kvs(ps.take(i + 1)) =~= pegout_kvs(ps.take(i as int)).push(
                (MWEB_KERNEL_PEGOUT_TYPE, seq![i as u8], ps[i as int]),
            ));
            assert(models(pairs@) =~= before.push((MWEB_KERNEL_PEGOUT_TYPE, seq![i as u8], ps[i as int])));
        }
        i = i + 1;
    }
    assert(ps.take(pegouts@.len() as int) =~= ps);
}

// ----- Applying fields ---------------------------------------------------------------------------

/// Peg-outs after setting entry `idx` to `v`, padding with empty values up to it.
pub open spec fn pegouts_set(ps: Seq<Seq<u8>>, idx: nat, v: Seq<u8>) -> Seq<Seq<u8>> {
    if idx < ps.len() {
        ps.update(idx as int, v)
    } else {
        (ps + Seq::new((idx - ps.len()) as nat, |_i: int| Seq::<u8>::empty())).push(v)
    }
}

/// The map after applying the field `(ty, key, value)`: a field whose value has the wrong size
/// is ignored, a peg-out goes to the index in its key data (appended when there is none), and
/// an unknown type changes nothing.
pub open spec fn kernel_apply(m: MwebKernelModel, ty: u8, key: Seq<u8>, value: Seq<u8>) -> MwebKernelModel {
    if ty == MWEB_KERNEL_EXCESS_COMMIT_TYPE && value.len() == 33 {
        MwebKernelModel { excess_commit: Some(value), ..m }
    } else if ty == MWEB_KERNEL_STEALTH_COMMIT_TYPE {
        MwebKernelModel { stealth_commit: Some(value), ..m }
    } else if ty == MWEB_KERNEL_FEE_TYPE && value.len() == 8 {
        MwebKernelModel { fee: Some(le_value(value) as u64), ..m }
    } else if ty == MWEB_KERNEL_PEGIN_AMOUNT_TYPE && value.len() == 8 {
        MwebKernelModel { pegin_amount: Some(le_value(value) as u64), ..m }
    } else if ty == MWEB_KERNEL_PEGOUT_TYPE {
        let idx = if key.len() == 0 {
            m.pegouts.len()
        } else {
            key[0] as nat
        };
        MwebKernelModel { pegouts: pegouts_set(m.pegouts, idx, value), ..m }
    } else if ty == MWEB_KERNEL_LOCK_HEIGHT_TYPE && value.len() == 4 {
        MwebKernelModel { lock_height: Some(le_value(value) as u32), ..m }
    } else if ty == MWEB_KERNEL_FEATURES_TYPE && value.len() > 0 {
        MwebKernelModel { features: Some(value[0]), ..m }
    } else if ty == MWEB_KERNEL_EXTRA_DATA_TYPE {
        MwebKernelModel { extra_data: Some(value), ..m }
    } else if ty == MWEB_KERNEL_SIGNATURE_TYPE && value.len() == 64 {
        MwebKernelModel { signature: Some(value), ..m }
    } else {
        m
    }
}

/// The map built by applying `(type, value)` pairs with empty key data, in order.
pub open spec fn kernel_from_pairs(ps: Seq<(u8, Seq<u8>)>) -> MwebKernelModel
    decreases ps.len(),
{
    if ps.len() == 0 {
        empty_kernel_map()
    } else {
        kernel_apply(kernel_from_pairs(ps.drop_last()), ps.last().0, Seq::empty(), ps.last().1)
    }
}

pub open spec fn first_some<T>(a: Option<T>, b: Option<T>) -> Option<T> {
    if a is Some {
        a
    } else {
        b
    }
}

pub open spec fn first_nonempty<T>(a: Seq<T>, b: Seq<T>) -> Seq<T> {
    if a.len() > 0 {
        a
    } else {
        b
    }
}

/// `a` merged with `b`: each field keeps `a`'s value when set, else takes `b`'s.
pub open spec fn kernel_combine(a: MwebKernelModel, b: MwebKernelModel) -> MwebKernelModel {
    MwebKernelModel {
        excess_commit: first_some(a.excess_commit, b.excess_commit),
        stealth_commit: first_some(a.stealth_commit, b.stealth_commit),
        fee: first_some(a.fee, b.fee),
        pegin_amount: first_some(a.pegin_amount, b.pegin_amount),
        pegouts: first_nonempty(a.pegouts, b.pegouts),
        lock_height: first_some(a.lock_height, b.lock_height),
        features: first_some(a.features, b.features),
        extra_data: first_some(a.extra_data, b.extra_data),
        signature: first_some(a.signature, b.signature),
        unknowns: first_nonempty(a.unknowns, b.unknowns),
    }
}

fn pad_pegouts(ps: &mut Vec<Vec<u8>>, idx: usize)
    ensures
        final(ps)@.len() == if idx < old(ps)@.len() {
            old(ps)@.len() as int
        } else {
            idx + 1
        },
        models(final(ps)@) == if idx < old(ps)@.len() {
            models(old(ps)@)
        } else {
            models(old(ps)@) + Seq::new((idx + 1 - old(ps)@.len()) as nat, |_i: int| Seq::<u8>::empty())
        },
{
    let ghost start = old(ps)@.len();
    assert(models(ps@) =~= models(old(ps)@) + Seq::new(0, |_i: int| Seq::<u8>::empty()));
    while ps.len() <= idx
        invariant
            start == old(ps)@.len(),
            start <= ps@.len(),
            ps@.len() <= start || ps@.len() <= idx + 1,
            models(ps@) == models(old(ps)@) + Seq::new((ps@.len() - start) as nat, |_i: int| Seq::<u8>::empty()),
        decreases idx + 1 - ps@.len(),
    {
        let ghost before = models(ps@);
        ps.push(Vec::new());
        assert(models(ps@) =~= models(old(ps)@) + Seq::new((ps@.len() - start) as nat, |_i: int| Seq::<u8>::empty())) by {
            assert(models(ps@) =~= before.push(Seq::<u8>::empty()));
        }
    }
    proof {
        if idx < start {
            assert(models(ps@) =~= models(old(ps)@));
        }
    }
}

impl MwebKernel {
    /// Encode kernel map as typed `(field_ty, key_suffix, value)` pairs.
    ///
    /// Peg-outs use `key_suffix = [pegout_index]` (ltcd-shaped). Other fields use an empty
    /// suffix.
    pub fn to_kv_pairs(&self) -> (pairs: Vec<(u8, Vec<u8>, Vec<u8>)>)
        ensures
            models(pairs@) == kernel_kv_pairs(self@),
    {
        let mut pairs: Vec<(u8, Vec<u8>, Vec<u8>)> = Vec::new();
        push_opt_kv(
            &mut pairs,
            MWEB_KERNEL_EXCESS_COMMIT_TYPE,
            match &self.excess_commit {
                Some(c) => Some(to_vec(c.as_slice())),
                None => None,
            },
        );
        push_opt_kv(
            &mut pairs,
            MWEB_KERNEL_STEALTH_COMMIT_TYPE,
            match &self.stealth_commit {
                Some(c) => Some(to_vec(c.as_slice())),
                None => None,
            },
        );
        push_opt_kv(
            &mut pairs,
            MWEB_KERNEL_FEE_TYPE,
            match self.fee {
                Some(f) => Some(le_vec(f, 8)),
                None => None,
            },
        );
        push_opt_kv(
            &mut pairs,
            MWEB_KERNEL_PEGIN_AMOUNT_TYPE,
            match self.pegin_amount {
                Some(a) => Some(le_vec(a, 8)),
                None => None,
            },
        );
        push_pegout_kvs(&mut pairs, &self.pegouts);
        push_opt_kv(
            &mut pairs,
            MWEB_KERNEL_LOCK_HEIGHT_TYPE,
            match self.lock_height {
                Some(h) => Some(le_vec(h as u64, 4)),
                None => None,
            },
        );
        push_opt_kv(
            &mut pairs,
            MWEB_KERNEL_FEATURES_TYPE,
            match self.features {
                Some(f) => {
                    let mut v: Vec<u8> = Vec::new();
                    v.push(f);
                    assert(v@ =~= seq![f]);
                    Some(v)
                },
                None => None,
            },
        );
        push_opt_kv(
            &mut pairs,
            MWEB_KERNEL_EXTRA_DATA_TYPE,
            match &self.extra_data {
                Some(e) => Some(to_vec(e.as_slice())),
                None => None,
            },
        );
        push_opt_kv(
            &mut pairs,
            MWEB_KERNEL_SIGNATURE_TYPE,
            match &self.signature {
                Some(s) => Some(to_vec(s.as_slice())),
                None => None,
            },
        );
        pairs
    }

    /// Encode as `(field_ty, value)` pairs (peg-out index is not preserved; use
    /// [`Self::to_kv_pairs`] for full fidelity).
    pub fn to_pairs(&self) -> (pairs: Vec<(u8, Vec<u8>)>)
        ensures
            models(pairs@) == drop_key_data(kernel_kv_pairs(self@)),
    {
        let kv = self.to_kv_pairs();
        let ghost ms = models(kv@);
        let mut pairs: Vec<(u8, Vec<u8>)> = Vec::new();
        let mut i: usize = 0;
        while i < kv.len()
            invariant
                i <= kv@.len(),
                ms == models(kv@),
                models(pairs@) == drop_key_data(ms.take(i as int)),
            decreases kv@.len() - i,
        {
            let ghost before = models(pairs@);
            let value = to_vec(kv[i].2.as_slice());
            pairs.push((kv[i].0, value));
            proof {
                assert(ms[i as int] == kv@[i as int]@);
                assert(drop_key_data(ms.take(i + 1)) =~= before.push((ms[i as int].0, ms[i as int].2)));
                assert(models(pairs@) =~= before.push((ms[i as int].0, ms[i as int].2)));
            }
            i = i + 1;
        }
        assert(ms.take(kv@.len() as int) =~= ms);
        pairs
    }

    /// Apply one kernel field from wire `(field_ty, key_data, value)`.
    ///
    /// For peg-outs, `key_data` is the pegout index (ltcd); empty `key_data` appends.
    pub fn apply_field(&mut self, field_ty: u8, key_data: &[u8], value: &[u8])
        ensures
            final(self)@ == kernel_apply(old(self)@, field_ty, key_data@, value@),
    {
        if field_ty == MWEB_KERNEL_EXCESS_COMMIT_TYPE && value.len() == 33 {
            self.excess_commit = Some(to_array::<33>(value));
        } else if field_ty == MWEB_KERNEL_STEALTH_COMMIT_TYPE {
            self.stealth_commit = Some(to_vec(value));
        } else if field_ty == MWEB_KERNEL_FEE_TYPE && value.len() == 8 {
            self.fee = Some(read_le(value, 0, 8));
            assert(value@.subrange(0, 8) =~= value@);
        } else if field_ty == MWEB_KERNEL_PEGIN_AMOUNT_TYPE && value.len() == 8 {
            self.pegin_amount = Some(read_le(value, 0, 8));
            assert(value@.subrange(0, 8) =~= value@);
        } else if field_ty == MWEB_KERNEL_PEGOUT_TYPE {
            let idx: usize = if key_data.len() == 0 {
                self.pegouts.len()
            } else {
                key_data[0] as usize
            };
            let ghost before = models(self.pegouts@);
            pad_pegouts(&mut self.pegouts, idx);
            let ghost padded = models(self.pegouts@);
            self.pegouts.set(idx, to_vec(value));
            proof {
                assert(models(self.pegouts@) =~= padded.update(idx as int, value@));
                assert(models(self.pegouts@) =~= pegouts_set(before, idx as nat, value@));
            }
        } else if field_ty == MWEB_KERNEL_LOCK_HEIGHT_TYPE && value.len() == 4 {
            proof {
                lemma_pow256_values();
                crate::encoding::lemma_le_value_bound(value@);
            }
            self.lock_height = Some(read_le(value, 0, 4) as u32);
            assert(value@.subrange(0, 4) =~= value@);
        } else if field_ty == MWEB_KERNEL_FEATURES_TYPE && value.len() > 0 {
            self.features = Some(value[0]);
        } else if field_ty == MWEB_KERNEL_EXTRA_DATA_TYPE {
            self.extra_data = Some(to_vec(value));
        } else if field_ty == MWEB_KERNEL_SIGNATURE_TYPE && value.len() == 64 {
            self.signature = Some(to_array::<64>(value));
        }
        assert(self@ =~= kernel_apply(old(self)@, field_ty, key_data@, value@));
    }

    /// Build from `(field_ty, value)` pairs (peg-outs append in order).
    pub fn from_pairs(pairs: Vec<(u8, Vec<u8>)>) -> (k: MwebKernel)
        ensures
            k@ == kernel_from_pairs(models(pairs@)),
    {
        let ghost ps = models(pairs@);
        let mut out = MwebKernel::default();
        let no_key: Vec<u8> = Vec::new();
        let mut i: usize = 0;
        assert(ps.take(0) =~= Seq::<(u8, Seq<u8>)>::empty());
        while i < pairs.len()
            invariant
                i <= pairs@.len(),
                ps == models(pairs@),
                no_key@ == Seq::<u8>::empty(),
                out@ == kernel_from_pairs(ps.take(i as int)),
            decreases pairs@.len() - i,
        {
            out.apply_field(pairs[i].0, no_key.as_slice(), pairs[i].1.as_slice());
            proof {
                assert(ps.take(i + 1).drop_last() =~= ps.take(i as int));
                assert(ps[i as int] == pairs@[i as int]@);
            }
            i = i + 1;
        }
        assert(ps.take(pairs@.len() as int) =~= ps);
        out
    }

    /// Merge `other` into `self`, keeping existing values when set.
    pub fn combine(&mut self, other: MwebKernel)
        ensures
            final(self)@ == kernel_combine(old(self)@, other@),
    {
        if self.excess_commit.is_none() {
            self.excess_commit = other.excess_commit;
        }
        if self.stealth_commit.is_none() {
            self.stealth_commit = other.stealth_commit;
        }
        if self.fee.is_none() {
            self.fee = other.fee;
        }
        if self.pegin_amount.is_none() {
            self.pegin_amount = other.pegin_amount;
        }
        if self.pegouts.len() == 0 {
            self.pegouts = other.pegouts;
        }
        if self.lock_height.is_none() {
            self.lock_height = other.lock_height;
        }
        if self.features.is_none() {
            self.features = other.features;
        }
        if self.extra_data.is_none() {
            self.extra_data = other.extra_data;
        }
        if self.signature.is_none() {
            self.signature = other.signature;
        }
        if self.unknowns.len() == 0 {
            self.unknowns = other.unknowns;
        }
        assert(self@ =~= kernel_combine(old(self)@, other@));
    }
}

// ----- ltcd standalone maps ----------------------------------------------------------------------

/// The map after reading the pair `t`: a kernel field type is applied, any other type is kept
/// as an unknown pair (key = type byte || key data).
pub open spec fn kernel_absorb(m: MwebKernelModel, t: PairModel) -> MwebKernelModel {
    if t.0 <= MWEB_KERNEL_SIGNATURE_TYPE {
        kernel_apply(m, t.0, t.1, t.2)
    } else {
        MwebKernelModel { unknowns: m.unknowns.push((seq![t.0] + t.1, t.2)), ..m }
    }
}

/// Reading pairs from `s` into `m` until the separator.
pub open spec fn kernel_map_from(s: Seq<u8>, m: MwebKernelModel) -> Result<MwebKernelModel, Error>
    decreases s.len(),
{
    match parse_pair(s) {
        Ok((t, n)) => {
            proof {
                lemma_parse_pair_len(s);
            }
            kernel_map_from(s.skip(n as int), kernel_absorb(m, t))
        },
        Err(Error::NoMorePairs) => Ok(m),
        Err(e) => Err(e),
    }
}

/// Decoding of an ltcd-style standalone kernel map: pairs up to the `0x00` separator.
pub open spec fn parse_kernel_map(s: Seq<u8>) -> Result<MwebKernelModel, Error> {
    kernel_map_from(s, empty_kernel_map())
}

/// The bytes of pairs, one after the other.
pub open spec fn pairs_bytes(ps: Seq<PairModel>) -> Seq<u8>
    decreases ps.len(),
{
    if ps.len() == 0 {
        Seq::empty()
    } else {
        pairs_bytes(ps.drop_last()) + pair_bytes(ps.last())
    }
}

/// An unknown pair split back into type byte, key data and value.
pub open spec fn unknown_pair(u: (Seq<u8>, Seq<u8>)) -> PairModel {
    (u.0[0], u.0.skip(1), u.1)
}

/// The bytes of the unknown pairs; one with an empty key is skipped.
pub open spec fn unknowns_bytes(us: Seq<(Seq<u8>, Seq<u8>)>) -> Seq<u8>
    decreases us.len(),
{
    if us.len() == 0 {
        Seq::empty()
    } else {
        unknowns_bytes(us.drop_last()) + if us.last().0.len() == 0 {
            Seq::empty()
        } else {
            pair_bytes(unknown_pair(us.last()))
        }
    }
}

/// An ltcd-style standalone kernel map: the typed pairs, the unknown pairs, and the separator.
pub open spec fn kernel_map_bytes(m: MwebKernelModel) -> Seq<u8> {
    pairs_bytes(kernel_kv_pairs(m)) + unknowns_bytes(m.unknowns) + seq![0u8]
}

proof fn lemma_kv_keys_short(m: MwebKernelModel)
    ensures
        forall|i: int| 0 <= i < kernel_kv_pairs(m).len() ==> (#[trigger] kernel_kv_pairs(m)[i]).1.len() <= 1,
{
    let ps = kernel_kv_pairs(m);
    let short = |q: Seq<PairModel>| forall|i: int| 0 <= i < q.len() ==> (#[trigger] q[i]).1.len() <= 1;
    assert forall|ty: u8, v: Option<Seq<u8>>| #[trigger] short(opt_kv(ty, v)) by {}
    assert(short(pegout_kvs(m.pegouts)));
    assert forall|a: Seq<PairModel>, b: Seq<PairModel>| short(a) && short(b) implies #[trigger] short(a + b) by {
        assert forall|i: int| 0 <= i < (a + b).len() implies (#[trigger] (a + b)[i]).1.len() <= 1 by {
            if i < a.len() {
                assert((a + b)[i] == a[i]);
            } else {
                assert((a + b)[i] == b[i - a.len()]);
            }
        }
    }
    assert(short(ps));
}

impl MwebKernel {
    /// Deserialize an ltcd-style standalone kernel PSBT map (pairs + `0x00` separator).
    pub fn deserialize_ltcd_map(data: &[u8]) -> (res: Result<MwebKernel, Error>)
        ensures
            match parse_kernel_map(data@) {
                Ok(m) => res matches Ok(k) && k@ == m,
                Err(e) => res == Err::<MwebKernel, Error>(e),
            },
    {
        let mut out = MwebKernel::default();
        let mut pos: usize = 0;
        assert(data@.skip(0) =~= data@);
        loop
            invariant
                pos <= data@.len(),
                parse_kernel_map(data@) == kernel_map_from(data@.skip(pos as int), out@),
            decreases data@.len() - pos,
        {
            let ghost s = data@.skip(pos as int);
            proof {
                lemma_parse_pair_len(s);
            }
            match decode_pair(data, pos) {
                Ok((pair, next)) => {
                    let ghost before = out@;
                    assert(s.skip(next - pos) == data@.skip(next as int));
                    if pair.key.type_value <= MWEB_KERNEL_SIGNATURE_TYPE {
                        out.apply_field(pair.key.type_value, pair.key.key.as_slice(), pair.value.as_slice());
                    } else {
                        let mut full_key: Vec<u8> = Vec::new();
                        full_key.push(pair.key.type_value);
                        append_bytes(&mut full_key, pair.key.key.as_slice());
                        let ghost entry = (full_key@, pair.value@);
                        out.unknowns.push((full_key, pair.value));
                        assert(models(out.unknowns@) =~= before.unknowns.push(entry));
                        assert(out@ =~= kernel_absorb(before, pair@));
                    }
                    pos = next;
                },
                Err(e) => {
                    match e {
                        Error::NoMorePairs => {
                            return Ok(out);
                        },
                        _ => {
                            return Err(e);
                        },
                    }
                },
            }
        }
    }

    /// Serialize as an ltcd-style standalone kernel PSBT map (pairs + `0x00` separator).
    pub fn serialize_ltcd_map(&self) -> (buf: Vec<u8>)
        ensures
            buf@ == kernel_map_bytes(self@),
    {
        let kv = self.to_kv_pairs();
        let ghost ms = models(kv@);
        proof {
            lemma_kv_keys_short(self@);
        }
        let mut buf: Vec<u8> = Vec::new();
        let mut i: usize = 0;
        assert(ms.take(0) =~= Seq::<PairModel>::empty());
        while i < kv.len()
            invariant
                i <= kv@.len(),
                ms == models(kv@),
                ms == kernel_kv_pairs(self@),
                forall|j: int| 0 <= j < ms.len() ==> (#[trigger] ms[j]).1.len() <= 1,
                buf@ == pairs_bytes(ms.take(i as int)),
            decreases kv@.len() - i,
        {
            assert(ms[i as int] == kv@[i as int]@);
            serialize_pair(kv[i].0, kv[i].1.as_slice(), kv[i].2.as_slice(), &mut buf);
            assert(ms.take(i + 1).drop_last() =~= ms.take(i as int));
            i = i + 1;
        }
        assert(ms.take(kv@.len() as int) =~= ms);
        let ghost us = models(self.unknowns@);
        let mut j: usize = 0;
        assert(us.take(0) =~= Seq::<(Seq<u8>, Seq<u8>)>::empty());
        while j < self.unknowns.len()
            invariant
                j <= self.unknowns@.len(),
                us == models(self.unknowns@),
                buf@ == pairs_bytes(kernel_kv_pairs(self@)) + unknowns_bytes(us.take(j as int)),
            decreases self.unknowns@.len() - j,
        {
            let full_key = &self.unknowns[j].0;
            let value = &self.unknowns[j].1;
            assert(us[j as int] == (full_key@, value@));
            assert(us.take(j + 1).drop_last() =~= us.take(j as int));
            if full_key.len() != 0 {
                let rest = vstd::slice::slice_subrange(full_key.as_slice(), 1, full_key.len());
                assert(rest@ =~= full_key@.skip(1));
                serialize_pair(full_key[0], rest, value.as_slice(), &mut buf);
            } else {
                assert(buf@ =~= buf@ + Seq::<u8>::empty());
            }
            j = j + 1;
        }
        assert(us.take(self.unknowns@.len() as int) =~= us);
        buf.push(0x00);
        buf
    }
}

// ----- Peg-out values ---------------------------------------------------------------------------

/// Decoding of one PSBT peg-out value (ltcd TxOut wire): an 8-byte little-endian amount, then a
/// script that must take up the rest.
pub open spec fn parse_pegout_psbt_value(raw: Seq<u8>) -> Result<PegOutCoinModel, Error> {
    if raw.len() < 8 {
        Err(Error::IncompleteMwebMaps(MapProblem::KernelPegoutTooShort))
    } else {
        match parse_byte_vec(raw.skip(8)) {
            Err(e) => Err(Error::ConsensusEncoding(e)),
            Ok((script, n)) => if n == raw.len() - 8 {
                Ok(PegOutCoinModel { amount: (le_value(raw.take(8)) as u64) as i64, script_pub_key: script })
            } else {
                Err(Error::ConsensusEncoding(DecodeError::ParseFailed(ParseFailure::DataNotConsumed)))
            },
        }
    }
}

/// The PSBT peg-out value of a coin.
pub open spec fn pegout_psbt_value_bytes(c: PegOutCoinModel) -> Seq<u8> {
    le_bytes((c.amount as u64) as nat, 8) + byte_vec_bytes(c.script_pub_key)
}

/// Decode one PSBT peg-out value (ltcd TxOut wire: 8-byte LE amount || script).
pub fn pegout_coin_from_psbt_value(raw: &[u8]) -> (res: Result<PegOutCoin, Error>)
    ensures
        match parse_pegout_psbt_value(raw@) {
            Ok(m) => res matches Ok(c) && c@ == m,
            Err(e) => res == Err::<PegOutCoin, Error>(e),
        },
{
    if raw.len() < 8 {
        return Err(Error::IncompleteMwebMaps(MapProblem::KernelPegoutTooShort));
    }
    let amount = read_le(raw, 0, 8) as i64;
    assert(raw@.subrange(0, 8) =~= raw@.take(8));
    let script_bytes = vstd::slice::slice_subrange(raw, 8, raw.len());
    assert(script_bytes@ =~= raw@.skip(8));
    assert(script_bytes@.skip(0) =~= script_bytes@);
    let (script_pub_key, end) = match read_byte_vec(script_bytes, 0) {
        Ok(r) => r,
        Err(e) => return Err(Error::ConsensusEncoding(e)),
    };
    if end != script_bytes.len() {
        return Err(Error::ConsensusEncoding(DecodeError::ParseFailed(ParseFailure::DataNotConsumed)));
    }
    Ok(PegOutCoin { amount, script_pub_key })
}

/// Encode one [`PegOutCoin`] as a PSBT peg-out value.
pub fn pegout_psbt_value(coin: &PegOutCoin) -> (v: Vec<u8>)
    ensures
        v@ == pegout_psbt_value_bytes(coin@),
{
    let mut v = le_vec(coin.amount as u64, 8);
    write_byte_vec(coin.script_pub_key.as_slice(), &mut v);
    v
}

/// A coin's PSBT peg-out value reads back as the same coin.
pub proof fn lemma_pegout_psbt_value_roundtrip(c: PegOutCoinModel)
    requires
        c.script_pub_key.len() <= u64::MAX,
    ensures
        parse_pegout_psbt_value(pegout_psbt_value_bytes(c)) == Ok::<PegOutCoinModel, Error>(c),
{
    let a = c.amount;
    let b = le_bytes((a as u64) as nat, 8);
    let raw = pegout_psbt_value_bytes(c);
    lemma_pow256_values();
    lemma_le_roundtrip((a as u64) as nat, 8);
    assert(raw.take(8) =~= b);
    assert(raw.skip(8) =~= byte_vec_bytes(c.script_pub_key) + Seq::<u8>::empty());
    lemma_byte_vec_roundtrip(c.script_pub_key, Seq::empty());
    assert(((a as u64) as i64) == a) by (bit_vector);
}

// ----- Round trips ------------------------------------------------------------------------------

/// Reading the pairs `ps` into `m`, in order.
pub open spec fn absorb_all(m: MwebKernelModel, ps: Seq<PairModel>) -> MwebKernelModel
    decreases ps.len(),
{
    if ps.len() == 0 {
        m
    } else {
        kernel_absorb(absorb_all(m, ps.drop_last()), ps.last())
    }
}

/// The pairs with their key data removed.
pub open spec fn clear_keys(ps: Seq<PairModel>) -> Seq<PairModel> {
    ps.map_values(|t: PairModel| (t.0, Seq::<u8>::empty(), t.2))
}

proof fn lemma_absorb_all_concat(m: MwebKernelModel, a: Seq<PairModel>, b: Seq<PairModel>)
    ensures
        absorb_all(m, a + b) == absorb_all(absorb_all(m, a), b),
    decreases b.len(),
{
    if b.len() == 0 {
        assert(a + b =~= a);
    } else {
        assert((a + b).drop_last() =~= a + b.drop_last());
        lemma_absorb_all_concat(m, a, b.drop_last());
    }
}

proof fn lemma_absorb_opt_kv(m: MwebKernelModel, ty: u8, v: Option<Seq<u8>>)
    ensures
        absorb_all(m, opt_kv(ty, v)) == match v {
            Some(x) => kernel_absorb(m, (ty, Seq::<u8>::empty(), x)),
            None => m,
        },
{
    let s = opt_kv(ty, v);
    if s.len() > 0 {
        assert(s.drop_last() =~= Seq::<PairModel>::empty());
        assert(absorb_all(m, Seq::<PairModel>::empty()) == m);
    }
}

/// Reading the peg-out pairs (with their indices, or with the indices removed) into a map
/// without peg-outs gives those peg-outs.
proof fn lemma_absorb_pegouts(m: MwebKernelModel, ps: Seq<Seq<u8>>, keep_index: bool)
    requires
        m.pegouts.len() == 0,
        keep_index ==> ps.len() <= 256,
    ensures
        absorb_all(m, if keep_index { pegout_kvs(ps) } else { clear_keys(pegout_kvs(ps)) })
            == (MwebKernelModel { pegouts: ps, ..m }),
    decreases ps.len(),
{
    let kvs = if keep_index { pegout_kvs(ps) } else { clear_keys(pegout_kvs(ps)) };
    if ps.len() == 0 {
        assert(ps =~= m.pegouts);
        assert(MwebKernelModel { pegouts: ps, ..m } =~= m);
    } else {
        let p = ps.drop_last();
        lemma_absorb_pegouts(m, p, keep_index);
        let kp = if keep_index { pegout_kvs(p) } else { clear_keys(pegout_kvs(p)) };
        assert(kvs.drop_last() =~= kp);
        let prev = MwebKernelModel { pegouts: p, ..m };
        let last = kvs.last();
        assert(last.2 == ps.last());
        if keep_index {
            assert(last.1 == seq![(ps.len() - 1) as u8]);
            assert(((ps.len() - 1) as u8) as nat == ps.len() - 1);
        }
        assert(pegouts_set(p, p.len(), ps.last()) =~= ps);
    }
}

/// The typed pairs of a map, read into an empty map (with or without their key data), give the
/// map without its unknown pairs.
/// The first four typed pairs (excess, stealth excess, fee, peg-in) read into `x`.
proof fn lemma_absorb_front(x: MwebKernelModel, m: MwebKernelModel)
    requires
        m.excess_commit matches Some(c) ==> c.len() == 33,
    ensures
        absorb_all(
            x,
            opt_kv(MWEB_KERNEL_EXCESS_COMMIT_TYPE, m.excess_commit) + opt_kv(
                MWEB_KERNEL_STEALTH_COMMIT_TYPE,
                m.stealth_commit,
            ) + opt_kv(MWEB_KERNEL_FEE_TYPE, opt_le_bytes(m.fee, 8)) + opt_kv(
                MWEB_KERNEL_PEGIN_AMOUNT_TYPE,
                opt_le_bytes(m.pegin_amount, 8),
            ),
        ) == (MwebKernelModel {
            excess_commit: first_some(m.excess_commit, x.excess_commit),
            stealth_commit: first_some(m.stealth_commit, x.stealth_commit),
            fee: first_some(m.fee, x.fee),
            pegin_amount: first_some(m.pegin_amount, x.pegin_amount),
            ..x
        }),
{
    let s0 = opt_kv(MWEB_KERNEL_EXCESS_COMMIT_TYPE, m.excess_commit);
    let s1 = opt_kv(MWEB_KERNEL_STEALTH_COMMIT_TYPE, m.stealth_commit);
    let s2 = opt_kv(MWEB_KERNEL_FEE_TYPE, opt_le_bytes(m.fee, 8));
    let s3 = opt_kv(MWEB_KERNEL_PEGIN_AMOUNT_TYPE, opt_le_bytes(m.pegin_amount, 8));
    lemma_absorb_all_concat(x, s0 + s1 + s2, s3);
    lemma_absorb_all_concat(x, s0 + s1, s2);
    lemma_absorb_all_concat(x, s0, s1);
    let x1 = absorb_all(x, s0);
    assert(x1 == MwebKernelModel { excess_commit: first_some(m.excess_commit, x.excess_commit), ..x }) by {
        lemma_absorb_opt_kv(x, MWEB_KERNEL_EXCESS_COMMIT_TYPE, m.excess_commit);
    }
    let x2 = absorb_all(x1, s1);
    assert(x2 == MwebKernelModel { stealth_commit: first_some(m.stealth_commit, x.stealth_commit), ..x1 }) by {
        lemma_absorb_opt_kv(x1, MWEB_KERNEL_STEALTH_COMMIT_TYPE, m.stealth_commit);
    }
    let x3 = absorb_all(x2, s2);
    assert(x3 == MwebKernelModel { fee: first_some(m.fee, x.fee), ..x2 }) by {
        lemma_absorb_opt_kv(x2, MWEB_KERNEL_FEE_TYPE, opt_le_bytes(m.fee, 8));
        if let Some(f) = m.fee {
            lemma_pow256_values();
            lemma_le_roundtrip(f as nat, 8);
        }
    }
    let x4 = absorb_all(x3, s3);
    assert(x4 == MwebKernelModel { pegin_amount: first_some(m.pegin_amount, x.pegin_amount), ..x3 }) by {
        lemma_absorb_opt_kv(x3, MWEB_KERNEL_PEGIN_AMOUNT_TYPE, opt_le_bytes(m.pegin_amount, 8));
        if let Some(a) = m.pegin_amount {
            lemma_pow256_values();
            lemma_le_roundtrip(a as nat, 8);
        }
    }
}

/// The last four typed pairs (lock height, features, extra data, signature) read into `x`.
proof fn lemma_absorb_back(x: MwebKernelModel, m: MwebKernelModel)
    requires
        m.signature matches Some(c) ==> c.len() == 64,
    ensures
        absorb_all(
            x,
            opt_kv(MWEB_KERNEL_LOCK_HEIGHT_TYPE, opt_lock_height_bytes(m.lock_height)) + opt_kv(
                MWEB_KERNEL_FEATURES_TYPE,
                opt_features_bytes(m.features),
            ) + opt_kv(MWEB_KERNEL_EXTRA_DATA_TYPE, m.extra_data) + opt_kv(
                MWEB_KERNEL_SIGNATURE_TYPE,
                m.signature,
            ),
        ) == (MwebKernelModel {
            lock_height: first_some(m.lock_height, x.lock_height),
            features: first_some(m.features, x.features),
            extra_data: first_some(m.extra_data, x.extra_data),
            signature: first_some(m.signature, x.signature),
            ..x
        }),
{
    let s5 = opt_kv(MWEB_KERNEL_LOCK_HEIGHT_TYPE, opt_lock_height_bytes(m.lock_height));
    let s6 = opt_kv(MWEB_KERNEL_FEATURES_TYPE, opt_features_bytes(m.features));
    let s7 = opt_kv(MWEB_KERNEL_EXTRA_DATA_TYPE, m.extra_data);
    let s8 = opt_kv(MWEB_KERNEL_SIGNATURE_TYPE, m.signature);
    lemma_absorb_all_concat(x, s5 + s6 + s7, s8);
    lemma_absorb_all_concat(x, s5 + s6, s7);
    lemma_absorb_all_concat(x, s5, s6);
    let x6 = absorb_all(x, s5);
    assert(x6 == MwebKernelModel { lock_height: first_some(m.lock_height, x.lock_height), ..x }) by {
        lemma_absorb_opt_kv(x, MWEB_KERNEL_LOCK_HEIGHT_TYPE, opt_lock_height_bytes(m.lock_height));
        if let Some(h) = m.lock_height {
            lemma_pow256_values();
            lemma_le_roundtrip(h as nat, 4);
        }
    }
    let x7 = absorb_all(x6, s6);
    assert(x7 == MwebKernelModel { features: first_some(m.features, x.features), ..x6 }) by {
        lemma_absorb_opt_kv(x6, MWEB_KERNEL_FEATURES_TYPE, opt_features_bytes(m.features));
    }
    let x8 = absorb_all(x7, s7);
    assert(x8 == MwebKernelModel { extra_data: first_some(m.extra_data, x.extra_data), ..x7 }) by {
        lemma_absorb_opt_kv(x7, MWEB_KERNEL_EXTRA_DATA_TYPE, m.extra_data);
    }
    let x9 = absorb_all(x8, s8);
    assert(x9 == MwebKernelModel { signature: first_some(m.signature, x.signature), ..x8 }) by {
        lemma_absorb_opt_kv(x8, MWEB_KERNEL_SIGNATURE_TYPE, m.signature);
    }
}

/// The typed pairs of a map, read into an empty map (with or without their key data), give the
/// map without its unknown pairs.
proof fn lemma_absorb_kv_pairs(m: MwebKernelModel, keep_index: bool)
    requires
        m.excess_commit matches Some(c) ==> c.len() == 33,
        m.signature matches Some(c) ==> c.len() == 64,
        keep_index ==> m.pegouts.len() <= 256,
    ensures
        absorb_all(
            empty_kernel_map(),
            if keep_index { kernel_kv_pairs(m) } else { clear_keys(kernel_kv_pairs(m)) },
        ) == (MwebKernelModel { unknowns: Seq::empty(), ..m }),
{
    let s0 = opt_kv(MWEB_KERNEL_EXCESS_COMMIT_TYPE, m.excess_commit);
    let s1 = opt_kv(MWEB_KERNEL_STEALTH_COMMIT_TYPE, m.stealth_commit);
    let s2 = opt_kv(MWEB_KERNEL_FEE_TYPE, opt_le_bytes(m.fee, 8));
    let s3 = opt_kv(MWEB_KERNEL_PEGIN_AMOUNT_TYPE, opt_le_bytes(m.pegin_amount, 8));
    let s4 = pegout_kvs(m.pegouts);
    let s5 = opt_kv(MWEB_KERNEL_LOCK_HEIGHT_TYPE, opt_lock_height_bytes(m.lock_height));
    let s6 = opt_kv(MWEB_KERNEL_FEATURES_TYPE, opt_features_bytes(m.features));
    let s7 = opt_kv(MWEB_KERNEL_EXTRA_DATA_TYPE, m.extra_data);
    let s8 = opt_kv(MWEB_KERNEL_SIGNATURE_TYPE, m.signature);
    let front = s0 + s1 + s2 + s3;
    let back = s5 + s6 + s7 + s8;
    let c4 = if keep_index { s4 } else { clear_keys(s4) };
    let all = if keep_index { kernel_kv_pairs(m) } else { clear_keys(kernel_kv_pairs(m)) };
    assert(all =~= front + c4 + back) by {
        assert forall|ty: u8, v: Option<Seq<u8>>| clear_keys(#[trigger] opt_kv(ty, v)) == opt_kv(ty, v) by {
            assert(clear_keys(opt_kv(ty, v)) =~= opt_kv(ty, v));
        }
        assert(kernel_kv_pairs(m) == front + s4 + back);
        assert forall|a: Seq<PairModel>, b: Seq<PairModel>| #[trigger] clear_keys(a + b) == clear_keys(a) + clear_keys(b) by {
            assert(clear_keys(a + b) =~= clear_keys(a) + clear_keys(b));
        }
    }
    let e = empty_kernel_map();
    lemma_absorb_all_concat(e, front + c4, back);
    lemma_absorb_all_concat(e, front, c4);
    lemma_absorb_front(e, m);
    let x4 = absorb_all(e, front);
    lemma_absorb_pegouts(x4, m.pegouts, keep_index);
    let x5 = absorb_all(x4, c4);
    lemma_absorb_back(x5, m);
    assert(absorb_all(x5, back) =~= MwebKernelModel { unknowns: Seq::empty(), ..m });
}

/// Reading written pairs, then more bytes, is reading the more bytes into the map that
/// already holds the pairs.
proof fn lemma_map_from_pairs(ps: Seq<PairModel>, tail: Seq<u8>, m: MwebKernelModel)
    requires
        forall|i: int| 0 <= i < ps.len() ==> pair_fits(#[trigger] ps[i]),
    ensures
        kernel_map_from(pairs_bytes(ps) + tail, m) == kernel_map_from(tail, absorb_all(m, ps)),
    decreases ps.len(),
{
    if ps.len() == 0 {
        assert(pairs_bytes(ps) + tail =~= tail);
    } else {
        let init = ps.drop_last();
        let last = ps.last();
        let rest = pair_bytes(last) + tail;
        assert(pairs_bytes(ps) + tail =~= pairs_bytes(init) + rest);
        lemma_map_from_pairs(init, rest, m);
        assert(pair_fits(ps[ps.len() - 1]));
        lemma_pair_roundtrip(last, tail);
        assert(rest.skip(pair_bytes(last).len() as int) =~= tail);
    }
}

/// The separator ends the map.
proof fn lemma_map_from_separator(m: MwebKernelModel)
    ensures
        kernel_map_from(seq![0u8], m) == Ok::<MwebKernelModel, Error>(m),
{
    lemma_separator(Seq::empty());
    assert(seq![0u8] + Seq::<u8>::empty() =~= seq![0u8]);
}

/// Unknown pairs whose keys are not empty are written as the pairs they split into.
proof fn lemma_unknowns_bytes(us: Seq<(Seq<u8>, Seq<u8>)>)
    requires
        forall|i: int| 0 <= i < us.len() ==> (#[trigger] us[i]).0.len() > 0,
    ensures
        unknowns_bytes(us) == pairs_bytes(us.map_values(|u: (Seq<u8>, Seq<u8>)| unknown_pair(u))),
    decreases us.len(),
{
    if us.len() > 0 {
        let f = |u: (Seq<u8>, Seq<u8>)| unknown_pair(u);
        assert(us.map_values(f).drop_last() =~= us.drop_last().map_values(f));
        assert(us[us.len() - 1].0.len() > 0);
        lemma_unknowns_bytes(us.drop_last());
    }
}

/// Reading unknown pairs whose type is not a kernel field's keeps them, in order, as unknowns.
proof fn lemma_absorb_unknowns(x: MwebKernelModel, us: Seq<(Seq<u8>, Seq<u8>)>)
    requires
        forall|i: int| 0 <= i < us.len() ==> (#[trigger] us[i]).0.len() > 0 && us[i].0[0] > MWEB_KERNEL_SIGNATURE_TYPE,
    ensures
        absorb_all(x, us.map_values(|u: (Seq<u8>, Seq<u8>)| unknown_pair(u)))
            == (MwebKernelModel { unknowns: x.unknowns + us, ..x }),
    decreases us.len(),
{
    let f = |u: (Seq<u8>, Seq<u8>)| unknown_pair(u);
    if us.len() == 0 {
        assert(x.unknowns + us =~= x.unknowns);
        assert(x =~= MwebKernelModel { unknowns: x.unknowns + us, ..x });
    } else {
        let init = us.drop_last();
        assert(us.map_values(f).drop_last() =~= init.map_values(f));
        lemma_absorb_unknowns(x, init);
        let u = us.last();
        assert(us[us.len() - 1].0.len() > 0);
        assert(seq![u.0[0]] + u.0.skip(1) =~= u.0);
        assert((x.unknowns + init).push(u) =~= x.unknowns + us);
    }
}

/// A kernel map that the ltcd-style encoding writes faithfully: the excess is 33 bytes and the
/// signature 64, there are at most 256 peg-outs (their index is one byte), each pair fits the
/// PSBT limits, and each unknown pair has a key whose type is not a kernel field's.
pub open spec fn kernel_map_writable(m: MwebKernelModel) -> bool {
    &&& m.excess_commit matches Some(c) ==> c.len() == 33
    &&& m.signature matches Some(c) ==> c.len() == 64
    &&& m.pegouts.len() <= 256
    &&& forall|i: int| 0 <= i < kernel_kv_pairs(m).len() ==> pair_fits(#[trigger] kernel_kv_pairs(m)[i])
    &&& forall|i: int|
        0 <= i < m.unknowns.len() ==> {
            &&& (#[trigger] m.unknowns[i]).0.len() > 0
            &&& m.unknowns[i].0[0] > MWEB_KERNEL_SIGNATURE_TYPE
            &&& pair_fits(unknown_pair(m.unknowns[i]))
        }
}

/// An ltcd-style kernel map reads back as the map that was written.
pub proof fn lemma_kernel_map_roundtrip(m: MwebKernelModel)
    requires
        kernel_map_writable(m),
    ensures
        parse_kernel_map(kernel_map_bytes(m)) == Ok::<MwebKernelModel, Error>(m),
{
    let kv = kernel_kv_pairs(m);
    let f = |u: (Seq<u8>, Seq<u8>)| unknown_pair(u);
    let us = m.unknowns.map_values(f);
    lemma_unknowns_bytes(m.unknowns);
    assert forall|i: int| 0 <= i < us.len() implies pair_fits(#[trigger] us[i]) by {
        assert(us[i] == unknown_pair(m.unknowns[i]));
    }
    let e = empty_kernel_map();
    assert(kernel_map_bytes(m) =~= pairs_bytes(kv) + (pairs_bytes(us) + seq![0u8]));
    lemma_map_from_pairs(kv, pairs_bytes(us) + seq![0u8], e);
    let x = absorb_all(e, kv);
    lemma_absorb_kv_pairs(m, true);
    lemma_map_from_pairs(us, seq![0u8], x);
    lemma_absorb_unknowns(x, m.unknowns);
    lemma_map_from_separator(absorb_all(x, us));
    assert(Seq::<(Seq<u8>, Seq<u8>)>::empty() + m.unknowns =~= m.unknowns);
    assert(absorb_all(x, us) =~= m);
}

/// `(type, value)` pairs as pairs with empty key data.
pub open spec fn with_empty_keys(ps: Seq<(u8, Seq<u8>)>) -> Seq<PairModel> {
    ps.map_values(|p: (u8, Seq<u8>)| (p.0, Seq::<u8>::empty(), p.1))
}

/// Building from `(type, value)` pairs of kernel field types is reading them with empty key
/// data.
proof fn lemma_from_pairs_absorb(ps: Seq<(u8, Seq<u8>)>)
    requires
        forall|i: int| 0 <= i < ps.len() ==> (#[trigger] ps[i]).0 <= MWEB_KERNEL_SIGNATURE_TYPE,
    ensures
        kernel_from_pairs(ps) == absorb_all(empty_kernel_map(), with_empty_keys(ps)),
    decreases ps.len(),
{
    if ps.len() > 0 {
        assert(with_empty_keys(ps).drop_last() =~= with_empty_keys(ps.drop_last()));
        assert(ps[ps.len() - 1].0 <= MWEB_KERNEL_SIGNATURE_TYPE);
        lemma_from_pairs_absorb(ps.drop_last());
    }
}

proof fn lemma_kv_types(m: MwebKernelModel)
    ensures
        forall|i: int| 0 <= i < kernel_kv_pairs(m).len() ==> (#[trigger] kernel_kv_pairs(m)[i]).0 <= MWEB_KERNEL_SIGNATURE_TYPE,
{
    let ps = kernel_kv_pairs(m);
    let typed = |q: Seq<PairModel>| forall|i: int| 0 <= i < q.len() ==> (#[trigger] q[i]).0 <= MWEB_KERNEL_SIGNATURE_TYPE;
    assert forall|ty: u8, v: Option<Seq<u8>>| ty <= MWEB_KERNEL_SIGNATURE_TYPE implies #[trigger] typed(opt_kv(ty, v)) by {}
    assert(typed(pegout_kvs(m.pegouts)));
    assert forall|a: Seq<PairModel>, b: Seq<PairModel>| typed(a) && typed(b) implies #[trigger] typed(a + b) by {
        assert forall|i: int| 0 <= i < (a + b).len() implies (#[trigger] (a + b)[i]).0 <= MWEB_KERNEL_SIGNATURE_TYPE by {
            if i < a.len() {
                assert((a + b)[i] == a[i]);
            } else {
                assert((a + b)[i] == b[i - a.len()]);
            }
        }
    }
    assert(typed(ps));
}

/// A kernel map without unknown pairs is rebuilt from its `(type, value)` pairs (peg-outs in
/// order).
pub proof fn lemma_kernel_pairs_roundtrip(m: MwebKernelModel)
    requires
        m.excess_commit matches Some(c) ==> c.len() == 33,
        m.signature matches Some(c) ==> c.len() == 64,
        m.unknowns.len() == 0,
    ensures
        kernel_from_pairs(drop_key_data(kernel_kv_pairs(m))) == m,
{
    let kv = kernel_kv_pairs(m);
    let ps = drop_key_data(kv);
    lemma_kv_types(m);
    assert forall|i: int| 0 <= i < ps.len() implies (#[trigger] ps[i]).0 <= MWEB_KERNEL_SIGNATURE_TYPE by {
        assert(ps[i].0 == kv[i].0);
    }
    lemma_from_pairs_absorb(ps);
    assert(with_empty_keys(ps) =~= clear_keys(kv));
    lemma_absorb_kv_pairs(m, false);
    assert(m.unknowns =~= Seq::<(Seq<u8>, Seq<u8>)>::empty());
    assert(MwebKernelModel { unknowns: Seq::empty(), ..m } =~= m);
}

/// Combining with an empty map changes nothing, either way round, and combining a map with
/// itself gives it back.
pub proof fn lemma_kernel_combine_identity(a: MwebKernelModel)
    ensures
        kernel_combine(a, empty_kernel_map()) == a,
        kernel_combine(empty_kernel_map(), a) == a,
        kernel_combine(a, a) == a,
{
    assert(kernel_combine(a, empty_kernel_map()) =~= a);
    assert(kernel_combine(empty_kernel_map(), a) =~= a);
    assert(kernel_combine(a, a) =~= a);
}

/// Combining is associative: merging `b` then `c` into `a` is merging (`b` merged with `c`)
/// into `a`.
pub proof fn lemma_kernel_combine_assoc(a: MwebKernelModel, b: MwebKernelModel, c: MwebKernelModel)
    ensures
        kernel_combine(kernel_combine(a, b), c) == kernel_combine(a, kernel_combine(b, c)),
{
    assert(kernel_combine(kernel_combine(a, b), c) =~= kernel_combine(a, kernel_combine(b, c)));
}

/// Combining keeps every field the first map already has and takes each missing one from the
/// second map; peg-outs and unknown pairs are kept when the first map has any.
pub proof fn lemma_kernel_combine_fields(a: MwebKernelModel, b: MwebKernelModel)
    ensures
        ({
            let c = kernel_combine(a, b);
            &&& (a.excess_commit is Some ==> c.excess_commit == a.excess_commit) && (a.excess_commit is None ==> c.excess_commit == b.excess_commit)
            &&& (a.stealth_commit is Some ==> c.stealth_commit == a.stealth_commit) && (a.stealth_commit is None ==> c.stealth_commit == b.stealth_commit)
            &&& (a.fee is Some ==> c.fee == a.fee) && (a.fee is None ==> c.fee == b.fee)
            &&& (a.pegin_amount is Some ==> c.pegin_amount == a.pegin_amount) && (a.pegin_amount is None ==> c.pegin_amount == b.pegin_amount)
            &&& (a.lock_height is Some ==> c.lock_height == a.lock_height) && (a.lock_height is None ==> c.lock_height == b.lock_height)
            &&& (a.features is Some ==> c.features == a.features) && (a.features is None ==> c.features == b.features)
            &&& (a.extra_data is Some ==> c.extra_data == a.extra_data) && (a.extra_data is None ==> c.extra_data == b.extra_data)
            &&& (a.signature is Some ==> c.signature == a.signature) && (a.signature is None ==> c.signature == b.signature)
            &&& (a.pegouts.len() > 0 ==> c.pegouts == a.pegouts) && (a.pegouts.len() == 0 ==> c.pegouts == b.pegouts)
            &&& (a.unknowns.len() > 0 ==> c.unknowns == a.unknowns) && (a.unknowns.len() == 0 ==> c.unknowns == b.unknowns)
        }),
{
}

/// What each kernel field type does when applied with value `v` (ltcd type numbers): 0 sets the
/// excess (33 bytes), 1 the stealth excess, 2 the fee and 3 the peg-in (8 bytes little-endian),
/// 4 a peg-out (appended without key data, else at the index in the key data's first byte,
/// padding with empty values), 5 the lock height (4 bytes little-endian), 6 the features (first
/// byte), 7 the extra data, 8 the signature (64 bytes). Values of another size, and other
/// types, change nothing.
pub proof fn lemma_kernel_apply_types(m: MwebKernelModel, key: Seq<u8>, v: Seq<u8>)
    ensures
        kernel_apply(m, 0, key, v) == if v.len() == 33 {
            MwebKernelModel { excess_commit: Some(v), ..m }
        } else {
            m
        },
        kernel_apply(m, 1, key, v) == (MwebKernelModel { stealth_commit: Some(v), ..m }),
        kernel_apply(m, 2, key, v) == if v.len() == 8 {
            MwebKernelModel { fee: Some(le_value(v) as u64), ..m }
        } else {
            m
        },
        kernel_apply(m, 3, key, v) == if v.len() == 8 {
            MwebKernelModel { pegin_amount: Some(le_value(v) as u64), ..m }
        } else {
            m
        },
        key.len() == 0 ==> kernel_apply(m, 4, key, v) == (MwebKernelModel { pegouts: m.pegouts.push(v), ..m }),
        key.len() > 0 && key[0] < m.pegouts.len() ==> kernel_apply(m, 4, key, v) == (MwebKernelModel {
            pegouts: m.pegouts.update(key[0] as int, v),
            ..m
        }),
        key.len() > 0 && key[0] >= m.pegouts.len() ==> {
            let r = kernel_apply(m, 4, key, v);
            &&& r == (MwebKernelModel { pegouts: r.pegouts, ..m })
            &&& r.pegouts.len() == key[0] + 1
            &&& r.pegouts[key[0] as int] == v
            &&& forall|j: int| 0 <= j < m.pegouts.len() ==> #[trigger] r.pegouts[j] == m.pegouts[j]
            &&& forall|j: int| m.pegouts.len() <= j < key[0] ==> #[trigger] r.pegouts[j] == Seq::<u8>::empty()
        },
        kernel_apply(m, 5, key, v) == if v.len() == 4 {
            MwebKernelModel { lock_height: Some(le_value(v) as u32), ..m }
        } else {
            m
        },
        kernel_apply(m, 6, key, v) == if v.len() > 0 {
            MwebKernelModel { features: Some(v[0]), ..m }
        } else {
            m
        },
        kernel_apply(m, 7, key, v) == (MwebKernelModel { extra_data: Some(v), ..m }),
        kernel_apply(m, 8, key, v) == if v.len() == 64 {
            MwebKernelModel { signature: Some(v), ..m }
        } else {
            m
        },
        forall|t: u8| t > 8 ==> #[trigger] kernel_apply(m, t, key, v) == m,
{
    if key.len() == 0 {
        assert(m.pegouts + Seq::new(0, |_i: int| Seq::<u8>::empty()) =~= m.pegouts);
    }
    if key.len() > 0 && key[0] >= m.pegouts.len() {
        let r = kernel_apply(m, 4, key, v);
        assert(r.pegouts == pegouts_set(m.pegouts, key[0] as nat, v));
    }
}

/// A peg-out value is written as the coin's amount as 8 little-endian bytes (two's complement),
/// then its script's CompactSize length and the script.
pub proof fn lemma_pegout_psbt_value_layout(c: PegOutCoinModel)
    ensures
        pegout_psbt_value_bytes(c).take(8) == le_bytes((c.amount as u64) as nat, 8),
        pegout_psbt_value_bytes(c).skip(8) == compact_size_bytes(c.script_pub_key.len() as u64) + c.script_pub_key,
{
    crate::encoding::lemma_le_bytes_len((c.amount as u64) as nat, 8);
    let b = pegout_psbt_value_bytes(c);
    assert(b.take(8) =~= le_bytes((c.amount as u64) as nat, 8));
    assert(b.skip(8) =~= compact_size_bytes(c.script_pub_key.len() as u64) + c.script_pub_key);
}

} // verus!
