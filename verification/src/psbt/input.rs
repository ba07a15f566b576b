//! The MWEB fields of one PSBT input (ltcd `PInput` MWEB subset).

use vstd::prelude::*;
use crate::encoding::{le_bytes, le_value, lemma_le_roundtrip, lemma_le_value_bound, lemma_pow256_values, read_le};
use crate::psbt::kernel::{first_some, opt_kv};
use crate::psbt::raw::{
    deserialize_key_source, key_source_bytes, lemma_key_source_roundtrip, parse_key_source,
    serialize_key_source, Key, KeySource, PairModel,
};
use crate::psbt::types::{
    MWEB_ADDRESS_INDEX_TYPE, MWEB_INPUT_AMOUNT_TYPE, MWEB_INPUT_EXTRA_DATA_TYPE,
    MWEB_INPUT_FEATURES_TYPE, MWEB_INPUT_FIELD_MAX, MWEB_INPUT_FIELD_MIN, MWEB_INPUT_PUBKEY_TYPE,
    MWEB_INPUT_SIGNATURE_TYPE, MWEB_KEY_EXCHANGE_PUBKEY_TYPE, MWEB_MASTER_SCAN_KEY_ORIGIN_TYPE,
    MWEB_MASTER_SPEND_KEY_ORIGIN_TYPE, MWEB_SHARED_SECRET_TYPE, MWEB_SPENT_OUTPUT_COMMIT_TYPE,
    MWEB_SPENT_OUTPUT_ID_TYPE, MWEB_SPENT_OUTPUT_PUBKEY_TYPE,
};
use crate::psbt::{clone_opt_bytes, le_vec, opt_bytes_view, to_array, to_vec, Error, MapProblem};
use crate::pubkey::{is_valid_public_key, lemma_public_key_len, secp256k1_parse_public_key, PublicKey};
use crate::wire::models;

verus! {

/// MWEB fields for one PSBT input (ltcd `PInput` MWEB subset).
#[derive(Debug, Clone, PartialEq, Eq, Hash)]
pub struct MwebInput {
    /// Spent output id.
    pub output_id: Option<[u8; 32]>,
    /// Spent commitment (33 bytes).
    pub commit: Option<[u8; 33]>,
    /// Output pubkey.
    pub output_pubkey: Option<Vec<u8>>,
    /// Input pubkey.
    pub input_pubkey: Option<Vec<u8>>,
    /// Feature bits.
    pub features: Option<u8>,
    /// Input signature.
    pub signature: Option<Vec<u8>>,
    /// Address index.
    pub address_index: Option<u32>,
    /// Amount litoshis.
    pub amount: Option<u64>,
    /// Shared secret.
    pub shared_secret: Option<[u8; 32]>,
    /// Key exchange pubkey.
    pub key_exchange_pubkey: Option<Vec<u8>>,
    /// Master scan key origin (ltcd `MwebMasterScanKey`: pubkey key + BIP32 KeySource value).
    pub master_scan_key_origin: Option<(PublicKey, KeySource)>,
    /// Master spend key origin (ltcd `MwebMasterSpendKey`: pubkey key + BIP32 KeySource value).
    pub master_spend_key_origin: Option<(PublicKey, KeySource)>,
    /// Extra data.
    pub extra_data: Option<Vec<u8>>,
}

/// A key origin: the compressed public key, and the key source (fingerprint, path).
pub type KeyOriginModel = (Seq<u8>, (Seq<u8>, Seq<u32>));

#[verifier::ext_equal]
pub struct MwebInputModel {
    pub output_id: Option<Seq<u8>>,
    pub commit: Option<Seq<u8>>,
    pub output_pubkey: Option<Seq<u8>>,
    pub input_pubkey: Option<Seq<u8>>,
    pub features: Option<u8>,
    pub signature: Option<Seq<u8>>,
    pub address_index: Option<u32>,
    pub amount: Option<u64>,
    pub shared_secret: Option<Seq<u8>>,
    pub key_exchange_pubkey: Option<Seq<u8>>,
    pub master_scan_key_origin: Option<KeyOriginModel>,
    pub master_spend_key_origin: Option<KeyOriginModel>,
    pub extra_data: Option<Seq<u8>>,
}

pub open spec fn opt_origin_view(o: Option<(PublicKey, KeySource)>) -> Option<KeyOriginModel> {
    match o {
        Some((pk, ks)) => Some((pk@, ks@)),
        None => None,
    }
}

impl View for MwebInput {
    type V = MwebInputModel;

    open spec fn view(&self) -> MwebInputModel {
        MwebInputModel {
            output_id: opt_bytes_view(self.output_id),
            commit: opt_bytes_view(self.commit),
            output_pubkey: opt_bytes_view(self.output_pubkey),
            input_pubkey: opt_bytes_view(self.input_pubkey),
            features: self.features,
            signature: opt_bytes_view(self.signature),
            address_index: self.address_index,
            amount: self.amount,
            shared_secret: opt_bytes_view(self.shared_secret),
            key_exchange_pubkey: opt_bytes_view(self.key_exchange_pubkey),
            master_scan_key_origin: opt_origin_view(self.master_scan_key_origin),
            master_spend_key_origin: opt_origin_view(self.master_spend_key_origin),
            extra_data: opt_bytes_view(self.extra_data),
        }
    }
}

/// The input map with no field set.
pub open spec fn empty_input_map() -> MwebInputModel {
    MwebInputModel {
        output_id: None,
        commit: None,
        output_pubkey: None,
        input_pubkey: None,
        features: None,
        signature: None,
        address_index: None,
        amount: None,
        shared_secret: None,
        key_exchange_pubkey: None,
        master_scan_key_origin: None,
        master_spend_key_origin: None,
        extra_data: None,
    }
}

impl Default for MwebInput {
    fn default() -> (i: MwebInput)
        ensures
            i@ == empty_input_map(),
    {
        MwebInput {
            output_id: None,
            commit: None,
            output_pubkey: None,
            input_pubkey: None,
            features: None,
            signature: None,
            address_index: None,
            amount: None,
            shared_secret: None,
            key_exchange_pubkey: None,
            master_scan_key_origin: None,
            master_spend_key_origin: None,
            extra_data: None,
        }
    }
}

pub open spec fn opt_le(o: Option<u64>, n: nat) -> Option<Seq<u8>> {
    match o {
        Some(x) => Some(le_bytes(x as nat, n)),
        None => None,
    }
}

pub open spec fn opt_index_bytes(o: Option<u32>) -> Option<Seq<u8>> {
    match o {
        Some(x) => Some(le_bytes(x as nat, 4)),
        None => None,
    }
}

pub open spec fn opt_feature_byte(o: Option<u8>) -> Option<Seq<u8>> {
    match o {
        Some(f) => Some(seq![f]),
        None => None,
    }
}

/// A key origin's pair: the compressed key as key data and the key source as value.
pub open spec fn origin_kv(ty: u8, o: Option<KeyOriginModel>) -> Seq<PairModel> {
    match o {
        Some((pk, ks)) => seq![(ty, pk, key_source_bytes(ks))],
        None => Seq::empty(),
    }
}

/// The input map as `(type, key data, value)` triples, in type order; only the key origins
/// have key data.
pub open spec fn input_kv_pairs(m: MwebInputModel) -> Seq<PairModel> {
    opt_kv(MWEB_SPENT_OUTPUT_ID_TYPE, m.output_id) + opt_kv(MWEB_SPENT_OUTPUT_COMMIT_TYPE, m.commit)
        + opt_kv(MWEB_SPENT_OUTPUT_PUBKEY_TYPE, m.output_pubkey) + opt_kv(
        MWEB_INPUT_PUBKEY_TYPE,
        m.input_pubkey,
    ) + opt_kv(MWEB_INPUT_FEATURES_TYPE, opt_feature_byte(m.features)) + opt_kv(
        MWEB_INPUT_SIGNATURE_TYPE,
        m.signature,
    ) + opt_kv(MWEB_ADDRESS_INDEX_TYPE, opt_index_bytes(m.address_index)) + opt_kv(
        MWEB_INPUT_AMOUNT_TYPE,
        opt_le(m.amount, 8),
    ) + opt_kv(MWEB_SHARED_SECRET_TYPE, m.shared_secret) + opt_kv(
        MWEB_KEY_EXCHANGE_PUBKEY_TYPE,
        m.key_exchange_pubkey,
    ) + origin_kv(MWEB_MASTER_SCAN_KEY_ORIGIN_TYPE, m.master_scan_key_origin) + origin_kv(
        MWEB_MASTER_SPEND_KEY_ORIGIN_TYPE,
        m.master_spend_key_origin,
    ) + opt_kv(MWEB_INPUT_EXTRA_DATA_TYPE, m.extra_data)
}

/// The `(type, value)` of the triples whose key data is empty, in order.
pub open spec fn keyless_pairs(ps: Seq<PairModel>) -> Seq<(u8, Seq<u8>)>
    decreases ps.len(),
{
    if ps.len() == 0 {
        Seq::empty()
    } else {
        keyless_pairs(ps.drop_last()) + if ps.last().1.len() == 0 {
            seq![(ps.last().0, ps.last().2)]
        } else {
            Seq::empty()
        }
    }
}

/// A key origin read from key data and value: kept only when secp256k1 accepts the key and the
/// value is a key source.
pub open spec fn origin_apply(old: Option<KeyOriginModel>, key: Seq<u8>, value: Seq<u8>) -> Option<KeyOriginModel> {
    match (secp256k1_parse_public_key(key), parse_key_source(value)) {
        (Some(pk), Some(ks)) => Some((pk, ks)),
        _ => old,
    }
}

/// The input map after applying the field `(ty, key, value)`. The key origins take their key
/// from the key data; every other field needs empty key data and, for the fixed-size ones, a
/// value of the right size; anything else changes nothing.
pub open spec fn input_apply(m: MwebInputModel, ty: u8, key: Seq<u8>, value: Seq<u8>) -> MwebInputModel {
    let plain = key.len() == 0;
    if ty == MWEB_SPENT_OUTPUT_ID_TYPE && plain && value.len() == 32 {
        MwebInputModel { output_id: Some(value), ..m }
    } else if ty == MWEB_SPENT_OUTPUT_COMMIT_TYPE && plain && value.len() == 33 {
        MwebInputModel { commit: Some(value), ..m }
    } else if ty == MWEB_SPENT_OUTPUT_PUBKEY_TYPE && plain {
        MwebInputModel { output_pubkey: Some(value), ..m }
    } else if ty == MWEB_INPUT_PUBKEY_TYPE && plain {
        MwebInputModel { input_pubkey: Some(value), ..m }
    } else if ty == MWEB_INPUT_FEATURES_TYPE && plain && value.len() > 0 {
        MwebInputModel { features: Some(value[0]), ..m }
    } else if ty == MWEB_INPUT_SIGNATURE_TYPE && plain {
        MwebInputModel { signature: Some(value), ..m }
    } else if ty == MWEB_ADDRESS_INDEX_TYPE && plain && value.len() == 4 {
        MwebInputModel { address_index: Some(le_value(value) as u32), ..m }
    } else if ty == MWEB_INPUT_AMOUNT_TYPE && plain && value.len() == 8 {
        MwebInputModel { amount: Some(le_value(value) as u64), ..m }
    } else if ty == MWEB_SHARED_SECRET_TYPE && plain && value.len() == 32 {
        MwebInputModel { shared_secret: Some(value), ..m }
    } else if ty == MWEB_KEY_EXCHANGE_PUBKEY_TYPE && plain {
        MwebInputModel { key_exchange_pubkey: Some(value), ..m }
    } else if ty == MWEB_MASTER_SCAN_KEY_ORIGIN_TYPE {
        MwebInputModel { master_scan_key_origin: origin_apply(m.master_scan_key_origin, key, value), ..m }
    } else if ty == MWEB_MASTER_SPEND_KEY_ORIGIN_TYPE {
        MwebInputModel { master_spend_key_origin: origin_apply(m.master_spend_key_origin, key, value), ..m }
    } else if ty == MWEB_INPUT_EXTRA_DATA_TYPE && plain {
        MwebInputModel { extra_data: Some(value), ..m }
    } else {
        m
    }
}

/// Applying the triples `ps` to `m`, in order.
pub open spec fn input_apply_all(m: MwebInputModel, ps: Seq<PairModel>) -> MwebInputModel
    decreases ps.len(),
{
    if ps.len() == 0 {
        m
    } else {
        let t = ps.last();
        input_apply(input_apply_all(m, ps.drop_last()), t.0, t.1, t.2)
    }
}

/// The input map built from `(type, key data, value)` triples, applied in order.
pub open spec fn input_from_kv_pairs(ps: Seq<PairModel>) -> MwebInputModel {
    input_apply_all(empty_input_map(), ps)
}

/// `(type, value)` pairs as triples with empty key data.
pub open spec fn keyless_triples(ps: Seq<(u8, Seq<u8>)>) -> Seq<PairModel> {
    ps.map_values(|p: (u8, Seq<u8>)| (p.0, Seq::<u8>::empty(), p.1))
}

/// The input map built from `(type, value)` pairs with empty key data, applied in order.
pub open spec fn input_from_pairs(ps: Seq<(u8, Seq<u8>)>) -> MwebInputModel {
    input_from_kv_pairs(keyless_triples(ps))
}

/// The entries of an unknown map whose type is an input field, as triples.
pub open spec fn input_entries(us: Seq<((u8, Seq<u8>), Seq<u8>)>) -> Seq<PairModel>
    decreases us.len(),
{
    if us.len() == 0 {
        Seq::empty()
    } else {
        let e = us.last();
        input_entries(us.drop_last()) + if MWEB_INPUT_FIELD_MIN <= e.0.0 <= MWEB_INPUT_FIELD_MAX {
            seq![(e.0.0, e.0.1, e.1)]
        } else {
            Seq::empty()
        }
    }
}

/// `a` merged with `b`: each field keeps `a`'s value when set, else takes `b`'s.
pub open spec fn input_combine(a: MwebInputModel, b: MwebInputModel) -> MwebInputModel {
    MwebInputModel {
        output_id: first_some(a.output_id, b.output_id),
        commit: first_some(a.commit, b.commit),
        output_pubkey: first_some(a.output_pubkey, b.output_pubkey),
        input_pubkey: first_some(a.input_pubkey, b.input_pubkey),
        features: first_some(a.features, b.features),
        signature: first_some(a.signature, b.signature),
        address_index: first_some(a.address_index, b.address_index),
        amount: first_some(a.amount, b.amount),
        shared_secret: first_some(a.shared_secret, b.shared_secret),
        key_exchange_pubkey: first_some(a.key_exchange_pubkey, b.key_exchange_pubkey),
        master_scan_key_origin: first_some(a.master_scan_key_origin, b.master_scan_key_origin),
        master_spend_key_origin: first_some(a.master_spend_key_origin, b.master_spend_key_origin),
        extra_data: first_some(a.extra_data, b.extra_data),
    }
}

/// The key origins and the address index are all set, or none of them is.
pub open spec fn key_origins_complete(m: MwebInputModel) -> bool {
    ||| (m.master_scan_key_origin is Some && m.master_spend_key_origin is Some && m.address_index is Some)
    ||| (m.master_scan_key_origin is None && m.master_spend_key_origin is None && m.address_index is None)
}

fn push_kv(pairs: &mut Vec<(u8, Vec<u8>, Vec<u8>)>, ty: u8, v: Option<Vec<u8>>)
    ensures
        models(final(pairs)@) == models(old(pairs)@) + opt_kv(ty, opt_bytes_view(v)),
{
    match v {
        Some(x) => {
            let ghost xv = x@;
            pairs.push((ty, Vec::new(), x));
            assert(models(pairs@) =~= models(old(pairs)@) + opt_kv(ty, Some(xv)));
        },
        None => {
            assert(models(pairs@) =~= models(old(pairs)@) + Seq::<PairModel>::empty());
        },
    }
}

fn push_origin(pairs: &mut Vec<(u8, Vec<u8>, Vec<u8>)>, ty: u8, o: &Option<(PublicKey, KeySource)>)
    ensures
        models(final(pairs)@) == models(old(pairs)@) + origin_kv(ty, opt_origin_view(*o)),
{
    match o {
        Some((pk, ks)) => {
            let key_bytes = pk.serialize();
            let key = to_vec(key_bytes.as_slice());
            let value = serialize_key_source(ks);
            let ghost t = (ty, key@, value@);
            pairs.push((ty, key, value));
            assert(models(pairs@) =~= models(old(pairs)@) + seq![t]);
        },
        None => {
            assert(models(pairs@) =~= models(old(pairs)@) + Seq::<PairModel>::empty());
        },
    }
}

/// Reads a key origin into `slot`: secp256k1 must accept the key data and the value must be a
/// key source; otherwise `slot` is left as it was.
fn read_origin(slot: &mut Option<(PublicKey, KeySource)>, key_data: &[u8], value: &[u8])
    ensures
        opt_origin_view(*final(slot)) == origin_apply(opt_origin_view(*old(slot)), key_data@, value@),
        secp256k1_parse_public_key(key_data@) is Some ==> key_data@.len() == 33 || key_data@.len() == 65,
{
    match PublicKey::from_slice(key_data) {
        Some(pk) => match deserialize_key_source(value) {
            Some(ks) => {
                *slot = Some((pk, ks));
            },
            None => {},
        },
        None => {},
    }
}

/// The key origins of an input hold keys that secp256k1 accepted, so its map reads back as
/// written.
fn origins_writable(inp: &MwebInput)
    ensures
        input_map_writable(inp@),
{
    if let Some((pk, _)) = &inp.master_scan_key_origin {
        proof {
            use_type_invariant(pk);
            lemma_public_key_len(*pk);
        }
    }
    if let Some((pk, _)) = &inp.master_spend_key_origin {
        proof {
            use_type_invariant(pk);
            lemma_public_key_len(*pk);
        }
    }
}

impl MwebInput {
    /// Encode as PSBT `(type, key_data, value)` triples.
    ///
    /// Most MWEB fields use empty `key_data`. Origins `0x9A`/`0x9B` use compressed pubkey
    /// as key data and BIP174 KeySource bytes as value (ltcd `partial_input.go`).
    pub fn to_kv_pairs(&self) -> (pairs: Vec<(u8, Vec<u8>, Vec<u8>)>)
        ensures
            models(pairs@) == input_kv_pairs(self@),
            input_from_kv_pairs(models(pairs@)) == self@,
    {
        origins_writable(self);
        proof {
            lemma_input_kv_roundtrip(self@);
        }
        let mut pairs: Vec<(u8, Vec<u8>, Vec<u8>)> = Vec::new();
        assert(models(pairs@) =~= Seq::<PairModel>::empty());
        push_kv(
            &mut pairs,
            MWEB_SPENT_OUTPUT_ID_TYPE,
            match &self.output_id {
                Some(id) => Some(to_vec(id.as_slice())),
                None => None,
            },
        );
        push_kv(
            &mut pairs,
            MWEB_SPENT_OUTPUT_COMMIT_TYPE,
            match &self.commit {
                Some(c) => Some(to_vec(c.as_slice())),
                None => None,
            },
        );
        push_kv(&mut pairs, MWEB_SPENT_OUTPUT_PUBKEY_TYPE, clone_opt_bytes(&self.output_pubkey));
        push_kv(&mut pairs, MWEB_INPUT_PUBKEY_TYPE, clone_opt_bytes(&self.input_pubkey));
        push_kv(
            &mut pairs,
            MWEB_INPUT_FEATURES_TYPE,
            match self.features {
                Some(f) => {
                    let mut v: Vec<u8> = Vec::new();
                    v.push(f);
                    assert(v@ =~= seq![f]);
                    Some(v)
                },
                None => None,
            },
        );
        push_kv(&mut pairs, MWEB_INPUT_SIGNATURE_TYPE, clone_opt_bytes(&self.signature));
        push_kv(
            &mut pairs,
            MWEB_ADDRESS_INDEX_TYPE,
            match self.address_index {
                Some(i) => Some(le_vec(i as u64, 4)),
                None => None,
            },
        );
        push_kv(
            &mut pairs,
            MWEB_INPUT_AMOUNT_TYPE,
            match self.amount {
                Some(a) => Some(le_vec(a, 8)),
                None => None,
            },
        );
        push_kv(
            &mut pairs,
            MWEB_SHARED_SECRET_TYPE,
            match &self.shared_secret {
                Some(ss) => Some(to_vec(ss.as_slice())),
                None => None,
            },
        );
        push_kv(&mut pairs, MWEB_KEY_EXCHANGE_PUBKEY_TYPE, clone_opt_bytes(&self.key_exchange_pubkey));
        push_origin(&mut pairs, MWEB_MASTER_SCAN_KEY_ORIGIN_TYPE, &self.master_scan_key_origin);
        push_origin(&mut pairs, MWEB_MASTER_SPEND_KEY_ORIGIN_TYPE, &self.master_spend_key_origin);
        push_kv(&mut pairs, MWEB_INPUT_EXTRA_DATA_TYPE, clone_opt_bytes(&self.extra_data));
        assert(models(pairs@) =~= input_kv_pairs(self@));
        pairs
    }

    /// Encode as `(type, value)` with empty keys (legacy helper for non-origin fields).
    ///
    /// Origins are included only when their pubkey key-data is empty (never for valid
    /// ltcd-shaped origins). Prefer [`Self::to_kv_pairs`].
    pub fn to_pairs(&self) -> (pairs: Vec<(u8, Vec<u8>)>)
        ensures
            models(pairs@) == keyless_pairs(input_kv_pairs(self@)),
            forall|i: int| 0 <= i < pairs@.len() ==> (#[trigger] pairs@[i]).0 != MWEB_MASTER_SCAN_KEY_ORIGIN_TYPE
                && pairs@[i].0 != MWEB_MASTER_SPEND_KEY_ORIGIN_TYPE,
            input_from_pairs(models(pairs@)) == (MwebInputModel {
                master_scan_key_origin: None,
                master_spend_key_origin: None,
                ..self@
            }),
    {
        origins_writable(self);
        proof {
            lemma_input_pairs_no_origins(self@);
            lemma_input_pairs_roundtrip(self@);
        }
        let kv = self.to_kv_pairs();
        let ghost ms = models(kv@);
        let mut pairs: Vec<(u8, Vec<u8>)> = Vec::new();
        let mut i: usize = 0;
        assert(ms.take(0) =~= Seq::<PairModel>::empty());
        assert(models(pairs@) =~= Seq::<(u8, Seq<u8>)>::empty());
        while i < kv.len()
            invariant
                i <= kv@.len(),
                ms == models(kv@),
                models(pairs@) == keyless_pairs(ms.take(i as int)),
            decreases kv@.len() - i,
        {
            let ghost before = models(pairs@);
            proof {
                assert(ms[i as int] == kv@[i as int]@);
                assert(ms.take(i + 1).drop_last() =~= ms.take(i as int));
            }
            if kv[i].1.len() == 0 {
                let value = to_vec(kv[i].2.as_slice());
                pairs.push((kv[i].0, value));
                assert(models(pairs@) =~= before.push((ms[i as int].0, ms[i as int].2)));
            } else {
                assert(keyless_pairs(ms.take(i + 1)) =~= before);
            }
            i = i + 1;
        }
        assert(ms.take(kv@.len() as int) =~= ms);
        assert forall|j: int| 0 <= j < pairs@.len() implies (#[trigger] pairs@[j]).0 != MWEB_MASTER_SCAN_KEY_ORIGIN_TYPE
            && pairs@[j].0 != MWEB_MASTER_SPEND_KEY_ORIGIN_TYPE by {
            assert(models(pairs@)[j] == pairs@[j]@);
        }
        pairs
    }

    /// Apply one typed field from wire `(field_ty, key_data, value)`.
    pub fn apply_kv_field(&mut self, field_ty: u8, key_data: &[u8], value: &[u8])
        ensures
            final(self)@ == input_apply(old(self)@, field_ty, key_data@, value@),
            key_data@.len() != 33 && key_data@.len() != 65 ==> final(self)@.master_scan_key_origin
                == old(self)@.master_scan_key_origin && final(self)@.master_spend_key_origin
                == old(self)@.master_spend_key_origin,
    {
        let plain = key_data.len() == 0;
        if field_ty == MWEB_SPENT_OUTPUT_ID_TYPE && plain && value.len() == 32 {
            self.output_id = Some(to_array::<32>(value));
        } else if field_ty == MWEB_SPENT_OUTPUT_COMMIT_TYPE && plain && value.len() == 33 {
            self.commit = Some(to_array::<33>(value));
        } else if field_ty == MWEB_SPENT_OUTPUT_PUBKEY_TYPE && plain {
            self.output_pubkey = Some(to_vec(value));
        } else if field_ty == MWEB_INPUT_PUBKEY_TYPE && plain {
            self.input_pubkey = Some(to_vec(value));
        } else if field_ty == MWEB_INPUT_FEATURES_TYPE && plain && value.len() > 0 {
            self.features = Some(value[0]);
        } else if field_ty == MWEB_INPUT_SIGNATURE_TYPE && plain {
            self.signature = Some(to_vec(value));
        } else if field_ty == MWEB_ADDRESS_INDEX_TYPE && plain && value.len() == 4 {
            proof {
                lemma_pow256_values();
                lemma_le_value_bound(value@);
            }
            self.address_index = Some(read_le(value, 0, 4) as u32);
            assert(value@.subrange(0, 4) =~= value@);
        } else if field_ty == MWEB_INPUT_AMOUNT_TYPE && plain && value.len() == 8 {
            self.amount = Some(read_le(value, 0, 8));
            assert(value@.subrange(0, 8) =~= value@);
        } else if field_ty == MWEB_SHARED_SECRET_TYPE && plain && value.len() == 32 {
            self.shared_secret = Some(to_array::<32>(value));
        } else if field_ty == MWEB_KEY_EXCHANGE_PUBKEY_TYPE && plain {
            self.key_exchange_pubkey = Some(to_vec(value));
        } else if field_ty == MWEB_MASTER_SCAN_KEY_ORIGIN_TYPE {
            read_origin(&mut self.master_scan_key_origin, key_data, value);
        } else if field_ty == MWEB_MASTER_SPEND_KEY_ORIGIN_TYPE {
            read_origin(&mut self.master_spend_key_origin, key_data, value);
        } else if field_ty == MWEB_INPUT_EXTRA_DATA_TYPE && plain {
            self.extra_data = Some(to_vec(value));
        }
        assert(self@ =~= input_apply(old(self)@, field_ty, key_data@, value@));
    }

    /// Apply one typed field with empty key data (non-origin fields).
    pub fn apply_field(&mut self, field_ty: u8, value: &[u8])
        ensures
            final(self)@ == input_apply(old(self)@, field_ty, Seq::empty(), value@),
            final(self)@.master_scan_key_origin == old(self)@.master_scan_key_origin,
            final(self)@.master_spend_key_origin == old(self)@.master_spend_key_origin,
    {
        let no_key: [u8; 0] = [];
        assert(no_key@ =~= Seq::<u8>::empty());
        self.apply_kv_field(field_ty, no_key.as_slice(), value);
    }

    /// Build from `(field_ty, value)` pairs (empty keys), applied in order.
    pub fn from_pairs(pairs: Vec<(u8, Vec<u8>)>) -> (i: MwebInput)
        ensures
            i@ == input_from_pairs(models(pairs@)),
    {
        let ghost ps = models(pairs@);
        let mut out = MwebInput::default();
        let mut i: usize = 0;
        assert(keyless_triples(ps.take(0)) =~= Seq::<PairModel>::empty());
        while i < pairs.len()
            invariant
                i <= pairs@.len(),
                ps == models(pairs@),
                out@ == input_from_pairs(ps.take(i as int)),
            decreases pairs@.len() - i,
        {
            out.apply_field(pairs[i].0, pairs[i].1.as_slice());
            proof {
                assert(ps[i as int] == pairs@[i as int]@);
                assert(keyless_triples(ps.take(i + 1)).drop_last() =~= keyless_triples(ps.take(i as int)));
            }
            i = i + 1;
        }
        assert(ps.take(pairs@.len() as int) =~= ps);
        out
    }

    /// Build from `(field_ty, key_data, value)` triples, applied in order.
    pub fn from_kv_pairs(pairs: Vec<(u8, Vec<u8>, Vec<u8>)>) -> (i: MwebInput)
        ensures
            i@ == input_from_kv_pairs(models(pairs@)),
    {
        let ghost ps = models(pairs@);
        let mut out = MwebInput::default();
        let mut i: usize = 0;
        assert(ps.take(0) =~= Seq::<PairModel>::empty());
        while i < pairs.len()
            invariant
                i <= pairs@.len(),
                ps == models(pairs@),
                out@ == input_from_kv_pairs(ps.take(i as int)),
            decreases pairs@.len() - i,
        {
            out.apply_kv_field(pairs[i].0, pairs[i].1.as_slice(), pairs[i].2.as_slice());
            proof {
                assert(ps[i as int] == pairs@[i as int]@);
                assert(ps.take(i + 1).drop_last() =~= ps.take(i as int));
            }
            i = i + 1;
        }
        assert(ps.take(pairs@.len() as int) =~= ps);
        out
    }

    /// Parse from the entries of a PSBT input `unknown` map, in map order (MWEB `0x90+`
    /// keys).
    pub fn from_unknown_map(unknown: &[(Key, Vec<u8>)]) -> (i: MwebInput)
        ensures
            i@ == input_from_kv_pairs(input_entries(models(unknown@))),
    {
        let ghost us = models(unknown@);
        let mut out = MwebInput::default();
        let mut i: usize = 0;
        assert(us.take(0) =~= Seq::<((u8, Seq<u8>), Seq<u8>)>::empty());
        while i < unknown.len()
            invariant
                i <= unknown@.len(),
                us == models(unknown@),
                out@ == input_from_kv_pairs(input_entries(us.take(i as int))),
            decreases unknown@.len() - i,
        {
            let k = &unknown[i].0;
            let v = &unknown[i].1;
            proof {
                assert(us[i as int] == (k@, v@));
                assert(us.take(i + 1).drop_last() =~= us.take(i as int));
            }
            let ghost before = input_entries(us.take(i as int));
            if MWEB_INPUT_FIELD_MIN <= k.type_value && k.type_value <= MWEB_INPUT_FIELD_MAX {
                out.apply_kv_field(k.type_value, k.key.as_slice(), v.as_slice());
                proof {
                    let after = input_entries(us.take(i + 1));
                    assert(after =~= before.push((k.type_value, k.key@, v@)));
                    assert(after.drop_last() =~= before);
                }
            } else {
                assert(input_entries(us.take(i + 1)) =~= before);
            }
            i = i + 1;
        }
        assert(us.take(unknown@.len() as int) =~= us);
        out
    }

    /// Merge `other` into `self`, keeping existing values when set (BIP-174 combine semantics).
    pub fn combine(&mut self, other: MwebInput)
        ensures
            final(self)@ == input_combine(old(self)@, other@),
    {
        if self.output_id.is_none() {
            self.output_id = other.output_id;
        }
        if self.commit.is_none() {
            self.commit = other.commit;
        }
        if self.output_pubkey.is_none() {
            self.output_pubkey = other.output_pubkey;
        }
        if self.input_pubkey.is_none() {
            self.input_pubkey = other.input_pubkey;
        }
        if self.features.is_none() {
            self.features = other.features;
        }
        if self.signature.is_none() {
            self.signature = other.signature;
        }
        if self.address_index.is_none() {
            self.address_index = other.address_index;
        }
        if self.amount.is_none() {
            self.amount = other.amount;
        }
        if self.shared_secret.is_none() {
            self.shared_secret = other.shared_secret;
        }
        if self.key_exchange_pubkey.is_none() {
            self.key_exchange_pubkey = other.key_exchange_pubkey;
        }
        if self.master_scan_key_origin.is_none() {
            self.master_scan_key_origin = other.master_scan_key_origin;
        }
        if self.master_spend_key_origin.is_none() {
            self.master_spend_key_origin = other.master_spend_key_origin;
        }
        if self.extra_data.is_none() {
            self.extra_data = other.extra_data;
        }
        assert(self@ =~= input_combine(old(self)@, other@));
    }

    /// Validate that origin fields are either all absent or fully populated (ltcwallet shape).
    pub fn validate_key_origins(&self) -> (res: Result<(), Error>)
        ensures
            key_origins_complete(self@) ==> res is Ok,
            !key_origins_complete(self@) ==> res == Err::<(), Error>(
                Error::IncompleteMwebMaps(MapProblem::IncompleteKeyOrigins),
            ),
    {
        let has_scan = self.master_scan_key_origin.is_some();
        let has_spend = self.master_spend_key_origin.is_some();
        let has_idx = self.address_index.is_some();
        if has_scan && has_spend && has_idx {
            return Ok(());
        }
        if !has_scan && !has_spend && !has_idx {
            return Ok(());
        }
        Err(Error::IncompleteMwebMaps(MapProblem::IncompleteKeyOrigins))
    }
}

proof fn lemma_apply_all_concat(m: MwebInputModel, a: Seq<PairModel>, b: Seq<PairModel>)
    ensures
        input_apply_all(m, a + b) == input_apply_all(input_apply_all(m, a), b),
    decreases b.len(),
{
    if b.len() == 0 {
        assert(a + b =~= a);
    } else {
        assert((a + b).drop_last() =~= a + b.drop_last());
        lemma_apply_all_concat(m, a, b.drop_last());
    }
}

proof fn lemma_apply_single(m: MwebInputModel, s: Seq<PairModel>)
    requires
        s.len() <= 1,
    ensures
        input_apply_all(m, s) == if s.len() == 1 {
            input_apply(m, s[0].0, s[0].1, s[0].2)
        } else {
            m
        },
{
    if s.len() == 1 {
        assert(s.drop_last() =~= Seq::<PairModel>::empty());
        assert(input_apply_all(m, Seq::<PairModel>::empty()) == m);
    }
}

/// A key origin that the encoding writes faithfully: a valid 33-byte compressed key and a
/// 4-byte fingerprint.
pub open spec fn origin_writable(o: Option<KeyOriginModel>) -> bool {
    o matches Some((pk, ks)) ==> pk.len() == 33 && is_valid_public_key(pk) && ks.0.len() == 4
}

/// An input map whose fields read back as written: the fixed-size fields have their sizes
/// and the key origins are writable.
pub open spec fn input_map_writable(m: MwebInputModel) -> bool {
    &&& m.output_id matches Some(x) ==> x.len() == 32
    &&& m.commit matches Some(x) ==> x.len() == 33
    &&& m.shared_secret matches Some(x) ==> x.len() == 32
    &&& origin_writable(m.master_scan_key_origin)
    &&& origin_writable(m.master_spend_key_origin)
}

proof fn lemma_origin_read_back(o: Option<KeyOriginModel>, old: Option<KeyOriginModel>)
    requires
        origin_writable(o),
    ensures
        o matches Some((pk, ks)) ==> origin_apply(old, pk, key_source_bytes(ks)) == o,
{
    if let Some((pk, ks)) = o {
        lemma_key_source_roundtrip(ks);
    }
}

/// The first five input pairs (output id, commitment, output key, input key, features) applied
/// to `x`.
proof fn lemma_apply_first(x: MwebInputModel, m: MwebInputModel)
    requires
        input_map_writable(m),
    ensures
        input_apply_all(
            x,
            opt_kv(MWEB_SPENT_OUTPUT_ID_TYPE, m.output_id) + opt_kv(MWEB_SPENT_OUTPUT_COMMIT_TYPE, m.commit)
                + opt_kv(MWEB_SPENT_OUTPUT_PUBKEY_TYPE, m.output_pubkey) + opt_kv(
                MWEB_INPUT_PUBKEY_TYPE,
                m.input_pubkey,
            ) + opt_kv(MWEB_INPUT_FEATURES_TYPE, opt_feature_byte(m.features)),
        ) == (MwebInputModel {
            output_id: first_some(m.output_id, x.output_id),
            commit: first_some(m.commit, x.commit),
            output_pubkey: first_some(m.output_pubkey, x.output_pubkey),
            input_pubkey: first_some(m.input_pubkey, x.input_pubkey),
            features: first_some(m.features, x.features),
            ..x
        }),
{
    let s0 = opt_kv(MWEB_SPENT_OUTPUT_ID_TYPE, m.output_id);
    let s1 = opt_kv(MWEB_SPENT_OUTPUT_COMMIT_TYPE, m.commit);
    let s2 = opt_kv(MWEB_SPENT_OUTPUT_PUBKEY_TYPE, m.output_pubkey);
    let s3 = opt_kv(MWEB_INPUT_PUBKEY_TYPE, m.input_pubkey);
    let s4 = opt_kv(MWEB_INPUT_FEATURES_TYPE, opt_feature_byte(m.features));
    lemma_apply_all_concat(x, s0 + s1 + s2 + s3, s4);
    lemma_apply_all_concat(x, s0 + s1 + s2, s3);
    lemma_apply_all_concat(x, s0 + s1, s2);
    lemma_apply_all_concat(x, s0, s1);
    let x1 = input_apply_all(x, s0);
    assert(x1 == MwebInputModel { output_id: first_some(m.output_id, x.output_id), ..x }) by {
        lemma_apply_single(x, s0);
    }
    let x2 = input_apply_all(x1, s1);
    assert(x2 == MwebInputModel { commit: first_some(m.commit, x.commit), ..x1 }) by {
        lemma_apply_single(x1, s1);
    }
    let x3 = input_apply_all(x2, s2);
    assert(x3 == MwebInputModel { output_pubkey: first_some(m.output_pubkey, x.output_pubkey), ..x2 }) by {
        lemma_apply_single(x2, s2);
    }
    let x4 = input_apply_all(x3, s3);
    assert(x4 == MwebInputModel { input_pubkey: first_some(m.input_pubkey, x.input_pubkey), ..x3 }) by {
        lemma_apply_single(x3, s3);
    }
    let x5 = input_apply_all(x4, s4);
    assert(x5 == MwebInputModel { features: first_some(m.features, x.features), ..x4 }) by {
        lemma_apply_single(x4, s4);
    }
}

/// The next five input pairs (signature, address index, amount, shared secret, key exchange
/// key) applied after the pairs `p`.
proof fn lemma_apply_middle(x: MwebInputModel, p: Seq<PairModel>, m: MwebInputModel)
    requires
        input_map_writable(m),
    ensures
        input_apply_all(
            x,
            p + opt_kv(MWEB_INPUT_SIGNATURE_TYPE, m.signature) + opt_kv(
                MWEB_ADDRESS_INDEX_TYPE,
                opt_index_bytes(m.address_index),
            ) + opt_kv(MWEB_INPUT_AMOUNT_TYPE, opt_le(m.amount, 8)) + opt_kv(
                MWEB_SHARED_SECRET_TYPE,
                m.shared_secret,
            ) + opt_kv(MWEB_KEY_EXCHANGE_PUBKEY_TYPE, m.key_exchange_pubkey),
        ) == ({
            let y = input_apply_all(x, p);
            MwebInputModel {
                signature: first_some(m.signature, y.signature),
                address_index: first_some(m.address_index, y.address_index),
                amount: first_some(m.amount, y.amount),
                shared_secret: first_some(m.shared_secret, y.shared_secret),
                key_exchange_pubkey: first_some(m.key_exchange_pubkey, y.key_exchange_pubkey),
                ..y
            }
        }),
{
    let s5 = opt_kv(MWEB_INPUT_SIGNATURE_TYPE, m.signature);
    let s6 = opt_kv(MWEB_ADDRESS_INDEX_TYPE, opt_index_bytes(m.address_index));
    let s7 = opt_kv(MWEB_INPUT_AMOUNT_TYPE, opt_le(m.amount, 8));
    let s8 = opt_kv(MWEB_SHARED_SECRET_TYPE, m.shared_secret);
    let s9 = opt_kv(MWEB_KEY_EXCHANGE_PUBKEY_TYPE, m.key_exchange_pubkey);
    lemma_apply_all_concat(x, p + s5 + s6 + s7 + s8, s9);
    lemma_apply_all_concat(x, p + s5 + s6 + s7, s8);
    lemma_apply_all_concat(x, p + s5 + s6, s7);
    lemma_apply_all_concat(x, p + s5, s6);
    lemma_apply_all_concat(x, p, s5);
    let y = input_apply_all(x, p);
    let x6 = input_apply_all(y, s5);
    assert(x6 == MwebInputModel { signature: first_some(m.signature, y.signature), ..y }) by {
        lemma_apply_single(y, s5);
    }
    let x7 = input_apply_all(x6, s6);
    assert(x7 == MwebInputModel { address_index: first_some(m.address_index, y.address_index), ..x6 }) by {
        lemma_apply_single(x6, s6);
        if let Some(i) = m.address_index {
            lemma_pow256_values();
            lemma_le_roundtrip(i as nat, 4);
        }
    }
    let x8 = input_apply_all(x7, s7);
    assert(x8 == MwebInputModel { amount: first_some(m.amount, y.amount), ..x7 }) by {
        lemma_apply_single(x7, s7);
        if let Some(a) = m.amount {
            lemma_pow256_values();
            lemma_le_roundtrip(a as nat, 8);
        }
    }
    let x9 = input_apply_all(x8, s8);
    assert(x9 == MwebInputModel { shared_secret: first_some(m.shared_secret, y.shared_secret), ..x8 }) by {
        lemma_apply_single(x8, s8);
    }
    let x10 = input_apply_all(x9, s9);
    assert(x10 == MwebInputModel { key_exchange_pubkey: first_some(m.key_exchange_pubkey, y.key_exchange_pubkey), ..x9 }) by {
        lemma_apply_single(x9, s9);
    }
}

/// The last three input pairs (the two key origins, extra data) applied after the pairs `p`.
proof fn lemma_apply_last(x: MwebInputModel, p: Seq<PairModel>, m: MwebInputModel)
    requires
        input_map_writable(m),
    ensures
        input_apply_all(
            x,
            p + origin_kv(MWEB_MASTER_SCAN_KEY_ORIGIN_TYPE, m.master_scan_key_origin) + origin_kv(
                MWEB_MASTER_SPEND_KEY_ORIGIN_TYPE,
                m.master_spend_key_origin,
            ) + opt_kv(MWEB_INPUT_EXTRA_DATA_TYPE, m.extra_data),
        ) == ({
            let y = input_apply_all(x, p);
            MwebInputModel {
                master_scan_key_origin: first_some(m.master_scan_key_origin, y.master_scan_key_origin),
                master_spend_key_origin: first_some(m.master_spend_key_origin, y.master_spend_key_origin),
                extra_data: first_some(m.extra_data, y.extra_data),
                ..y
            }
        }),
{
    let s10 = origin_kv(MWEB_MASTER_SCAN_KEY_ORIGIN_TYPE, m.master_scan_key_origin);
    let s11 = origin_kv(MWEB_MASTER_SPEND_KEY_ORIGIN_TYPE, m.master_spend_key_origin);
    let s12 = opt_kv(MWEB_INPUT_EXTRA_DATA_TYPE, m.extra_data);
    lemma_apply_all_concat(x, p + s10 + s11, s12);
    lemma_apply_all_concat(x, p + s10, s11);
    lemma_apply_all_concat(x, p, s10);
    let y = input_apply_all(x, p);
    let x11 = input_apply_all(y, s10);
    assert(x11 == MwebInputModel { master_scan_key_origin: first_some(m.master_scan_key_origin, y.master_scan_key_origin), ..y }) by {
        lemma_apply_single(y, s10);
        lemma_origin_read_back(m.master_scan_key_origin, y.master_scan_key_origin);
    }
    let x12 = input_apply_all(x11, s11);
    assert(x12 == MwebInputModel { master_spend_key_origin: first_some(m.master_spend_key_origin, y.master_spend_key_origin), ..x11 }) by {
        lemma_apply_single(x11, s11);
        lemma_origin_read_back(m.master_spend_key_origin, x11.master_spend_key_origin);
    }
    let x13 = input_apply_all(x12, s12);
    assert(x13 == MwebInputModel { extra_data: first_some(m.extra_data, y.extra_data), ..x12 }) by {
        lemma_apply_single(x12, s12);
    }
}

/// An input map is rebuilt from its `(type, key data, value)` triples.
pub proof fn lemma_input_kv_roundtrip(m: MwebInputModel)
    requires
        input_map_writable(m),
    ensures
        input_from_kv_pairs(input_kv_pairs(m)) == m,
{
    let first = opt_kv(MWEB_SPENT_OUTPUT_ID_TYPE, m.output_id) + opt_kv(MWEB_SPENT_OUTPUT_COMMIT_TYPE, m.commit)
        + opt_kv(MWEB_SPENT_OUTPUT_PUBKEY_TYPE, m.output_pubkey) + opt_kv(
        MWEB_INPUT_PUBKEY_TYPE,
        m.input_pubkey,
    ) + opt_kv(MWEB_INPUT_FEATURES_TYPE, opt_feature_byte(m.features));
    let middle = first + opt_kv(MWEB_INPUT_SIGNATURE_TYPE, m.signature) + opt_kv(
        MWEB_ADDRESS_INDEX_TYPE,
        opt_index_bytes(m.address_index),
    ) + opt_kv(MWEB_INPUT_AMOUNT_TYPE, opt_le(m.amount, 8)) + opt_kv(
        MWEB_SHARED_SECRET_TYPE,
        m.shared_secret,
    ) + opt_kv(MWEB_KEY_EXCHANGE_PUBKEY_TYPE, m.key_exchange_pubkey);
    let e = empty_input_map();
    lemma_apply_first(e, m);
    lemma_apply_middle(e, first, m);
    lemma_apply_last(e, middle, m);
    assert(input_from_kv_pairs(input_kv_pairs(m)) =~= m);
}

/// Triples as unknown-map entries: key `(type, key data)`, then the value.
pub open spec fn as_keyed_entries(ps: Seq<PairModel>) -> Seq<((u8, Seq<u8>), Seq<u8>)> {
    ps.map_values(|t: PairModel| ((t.0, t.1), t.2))
}

proof fn lemma_input_entries_keep(ps: Seq<PairModel>)
    requires
        forall|i: int| 0 <= i < ps.len() ==> MWEB_INPUT_FIELD_MIN <= (#[trigger] ps[i]).0 <= MWEB_INPUT_FIELD_MAX,
    ensures
        input_entries(as_keyed_entries(ps)) == ps,
    decreases ps.len(),
{
    if ps.len() > 0 {
        assert(as_keyed_entries(ps).drop_last() =~= as_keyed_entries(ps.drop_last()));
        assert(MWEB_INPUT_FIELD_MIN <= ps[ps.len() - 1].0 <= MWEB_INPUT_FIELD_MAX);
        lemma_input_entries_keep(ps.drop_last());
        assert(ps.drop_last().push(ps.last()) =~= ps);
    } else {
        assert(ps =~= Seq::<PairModel>::empty());
    }
}

proof fn lemma_input_pair_types(m: MwebInputModel)
    ensures
        forall|i: int| 0 <= i < input_kv_pairs(m).len() ==> MWEB_INPUT_FIELD_MIN <= (#[trigger] input_kv_pairs(m)[i]).0 <= MWEB_INPUT_FIELD_MAX,
{
    let typed = |q: Seq<PairModel>| forall|i: int| 0 <= i < q.len() ==> MWEB_INPUT_FIELD_MIN <= (#[trigger] q[i]).0 <= MWEB_INPUT_FIELD_MAX;
    assert forall|ty: u8, v: Option<Seq<u8>>| MWEB_INPUT_FIELD_MIN <= ty <= MWEB_INPUT_FIELD_MAX implies #[trigger] typed(opt_kv(ty, v)) by {}
    assert forall|ty: u8, o: Option<KeyOriginModel>| MWEB_INPUT_FIELD_MIN <= ty <= MWEB_INPUT_FIELD_MAX implies #[trigger] typed(origin_kv(ty, o)) by {}
    assert forall|a: Seq<PairModel>, b: Seq<PairModel>| typed(a) && typed(b) implies #[trigger] typed(a + b) by {
        assert forall|i: int| 0 <= i < (a + b).len() implies MWEB_INPUT_FIELD_MIN <= (#[trigger] (a + b)[i]).0 <= MWEB_INPUT_FIELD_MAX by {
            if i < a.len() {
                assert((a + b)[i] == a[i]);
            } else {
                assert((a + b)[i] == b[i - a.len()]);
            }
        }
    }
    assert(typed(input_kv_pairs(m)));
}

/// An input map written into a PSBT input's unknown map (each triple under the key
/// `(type, key data)`) reads back as the same map.
pub proof fn lemma_input_unknown_map_roundtrip(m: MwebInputModel)
    requires
        input_map_writable(m),
    ensures
        input_from_kv_pairs(input_entries(as_keyed_entries(input_kv_pairs(m)))) == m,
{
    lemma_input_pair_types(m);
    lemma_input_entries_keep(input_kv_pairs(m));
    lemma_input_kv_roundtrip(m);
}

/// The keyless part of triples, as triples again.
pub open spec fn plain_triples(ps: Seq<PairModel>) -> Seq<PairModel> {
    keyless_triples(keyless_pairs(ps))
}

proof fn lemma_plain_concat(a: Seq<PairModel>, b: Seq<PairModel>)
    ensures
        plain_triples(a + b) == plain_triples(a) + plain_triples(b),
    decreases b.len(),
{
    if b.len() == 0 {
        assert(a + b =~= a);
        assert(keyless_pairs(b) =~= Seq::<(u8, Seq<u8>)>::empty());
        assert(plain_triples(a) + plain_triples(b) =~= plain_triples(a));
    } else {
        assert((a + b).drop_last() =~= a + b.drop_last());
        lemma_plain_concat(a, b.drop_last());
        let tail = if b.last().1.len() == 0 {
            seq![(b.last().0, b.last().2)]
        } else {
            Seq::<(u8, Seq<u8>)>::empty()
        };
        assert(keyless_pairs(a + b) == keyless_pairs(a + b.drop_last()) + tail);
        assert(keyless_pairs(b) == keyless_pairs(b.drop_last()) + tail);
        assert forall|x: Seq<(u8, Seq<u8>)>, y: Seq<(u8, Seq<u8>)>| #[trigger] keyless_triples(x + y) == keyless_triples(x) + keyless_triples(y) by {
            assert(keyless_triples(x + y) =~= keyless_triples(x) + keyless_triples(y));
        }
        assert(plain_triples(a + b) =~= plain_triples(a) + plain_triples(b));
    }
}

proof fn lemma_plain_single(s: Seq<PairModel>)
    requires
        s.len() <= 1,
    ensures
        plain_triples(s) == if s.len() == 1 && s[0].1.len() == 0 {
            s
        } else {
            Seq::<PairModel>::empty()
        },
{
    if s.len() == 1 {
        assert(s.drop_last() =~= Seq::<PairModel>::empty());
        assert(keyless_pairs(Seq::<PairModel>::empty()) == Seq::<(u8, Seq<u8>)>::empty());
        if s[0].1.len() == 0 {
            assert(s[0].1 =~= Seq::<u8>::empty());
            assert(keyless_pairs(s) =~= seq![(s[0].0, s[0].2)]);
            assert(plain_triples(s) =~= s);
        } else {
            assert(plain_triples(s) =~= Seq::<PairModel>::empty());
        }
    } else {
        assert(plain_triples(s) =~= Seq::<PairModel>::empty());
    }
}

/// The keyless part of an input map's triples is the triples of the map without its origins.
proof fn lemma_plain_input_pairs(m: MwebInputModel)
    requires
        input_map_writable(m),
    ensures
        plain_triples(input_kv_pairs(m)) == input_kv_pairs(
            (MwebInputModel { master_scan_key_origin: None, master_spend_key_origin: None, ..m }),
        ),
{
    let m2 = MwebInputModel { master_scan_key_origin: None, master_spend_key_origin: None, ..m };
    let s0 = opt_kv(MWEB_SPENT_OUTPUT_ID_TYPE, m.output_id);
    let s1 = opt_kv(MWEB_SPENT_OUTPUT_COMMIT_TYPE, m.commit);
    let s2 = opt_kv(MWEB_SPENT_OUTPUT_PUBKEY_TYPE, m.output_pubkey);
    let s3 = opt_kv(MWEB_INPUT_PUBKEY_TYPE, m.input_pubkey);
    let s4 = opt_kv(MWEB_INPUT_FEATURES_TYPE, opt_feature_byte(m.features));
    let s5 = opt_kv(MWEB_INPUT_SIGNATURE_TYPE, m.signature);
    let s6 = opt_kv(MWEB_ADDRESS_INDEX_TYPE, opt_index_bytes(m.address_index));
    let s7 = opt_kv(MWEB_INPUT_AMOUNT_TYPE, opt_le(m.amount, 8));
    let s8 = opt_kv(MWEB_SHARED_SECRET_TYPE, m.shared_secret);
    let s9 = opt_kv(MWEB_KEY_EXCHANGE_PUBKEY_TYPE, m.key_exchange_pubkey);
    let s10 = origin_kv(MWEB_MASTER_SCAN_KEY_ORIGIN_TYPE, m.master_scan_key_origin);
    let s11 = origin_kv(MWEB_MASTER_SPEND_KEY_ORIGIN_TYPE, m.master_spend_key_origin);
    let s12 = opt_kv(MWEB_INPUT_EXTRA_DATA_TYPE, m.extra_data);
    let p1 = s0 + s1;
    let p2 = p1 + s2;
    let p3 = p2 + s3;
    let p4 = p3 + s4;
    let p5 = p4 + s5;
    let p6 = p5 + s6;
    let p7 = p6 + s7;
    let p8 = p7 + s8;
    let p9 = p8 + s9;
    let p10 = p9 + s10;
    let p11 = p10 + s11;
    let p12 = p11 + s12;
    assert(p12 == input_kv_pairs(m));
    lemma_plain_concat(s0, s1);
    lemma_plain_concat(p1, s2);
    lemma_plain_concat(p2, s3);
    lemma_plain_concat(p3, s4);
    lemma_plain_concat(p4, s5);
    lemma_plain_concat(p5, s6);
    lemma_plain_concat(p6, s7);
    lemma_plain_concat(p7, s8);
    lemma_plain_concat(p8, s9);
    lemma_plain_concat(p9, s10);
    lemma_plain_concat(p10, s11);
    lemma_plain_concat(p11, s12);
    lemma_plain_single(s0);
    lemma_plain_single(s1);
    lemma_plain_single(s2);
    lemma_plain_single(s3);
    lemma_plain_single(s4);
    lemma_plain_single(s5);
    lemma_plain_single(s6);
    lemma_plain_single(s7);
    lemma_plain_single(s8);
    lemma_plain_single(s9);
    lemma_plain_single(s10);
    lemma_plain_single(s11);
    lemma_plain_single(s12);
    assert(plain_triples(p12) == input_kv_pairs(m2));
}

proof fn lemma_no_origin_types(m: MwebInputModel)
    requires
        m.master_scan_key_origin is None,
        m.master_spend_key_origin is None,
    ensures
        forall|i: int| 0 <= i < input_kv_pairs(m).len() ==> (#[trigger] input_kv_pairs(m)[i]).0 != MWEB_MASTER_SCAN_KEY_ORIGIN_TYPE
            && input_kv_pairs(m)[i].0 != MWEB_MASTER_SPEND_KEY_ORIGIN_TYPE,
{
    let typed = |q: Seq<PairModel>| forall|i: int| 0 <= i < q.len() ==> (#[trigger] q[i]).0 != MWEB_MASTER_SCAN_KEY_ORIGIN_TYPE && q[i].0 != MWEB_MASTER_SPEND_KEY_ORIGIN_TYPE;
    assert forall|ty: u8, v: Option<Seq<u8>>| ty != MWEB_MASTER_SCAN_KEY_ORIGIN_TYPE && ty != MWEB_MASTER_SPEND_KEY_ORIGIN_TYPE implies #[trigger] typed(opt_kv(ty, v)) by {}
    assert forall|ty: u8| #[trigger] typed(origin_kv(ty, None)) by {}
    assert forall|a: Seq<PairModel>, b: Seq<PairModel>| typed(a) && typed(b) implies #[trigger] typed(a + b) by {
        assert forall|i: int| 0 <= i < (a + b).len() implies (#[trigger] (a + b)[i]).0 != MWEB_MASTER_SCAN_KEY_ORIGIN_TYPE && (a + b)[i].0 != MWEB_MASTER_SPEND_KEY_ORIGIN_TYPE by {
            if i < a.len() {
                assert((a + b)[i] == a[i]);
            } else {
                assert((a + b)[i] == b[i - a.len()]);
            }
        }
    }
    assert(typed(input_kv_pairs(m)));
}

/// The keyless pairs of an input map hold no key origin: origins always carry their 33-byte
/// key as key data.
pub proof fn lemma_input_pairs_no_origins(m: MwebInputModel)
    requires
        input_map_writable(m),
    ensures
        forall|i: int| 0 <= i < keyless_pairs(input_kv_pairs(m)).len() ==> (#[trigger] keyless_pairs(input_kv_pairs(m))[i]).0
            != MWEB_MASTER_SCAN_KEY_ORIGIN_TYPE && keyless_pairs(input_kv_pairs(m))[i].0
            != MWEB_MASTER_SPEND_KEY_ORIGIN_TYPE,
{
    let m2 = MwebInputModel { master_scan_key_origin: None, master_spend_key_origin: None, ..m };
    let kp = keyless_pairs(input_kv_pairs(m));
    lemma_plain_input_pairs(m);
    lemma_no_origin_types(m2);
    assert forall|i: int| 0 <= i < kp.len() implies (#[trigger] kp[i]).0 != MWEB_MASTER_SCAN_KEY_ORIGIN_TYPE && kp[i].0 != MWEB_MASTER_SPEND_KEY_ORIGIN_TYPE by {
        assert(keyless_triples(kp)[i].0 == kp[i].0);
        assert(input_kv_pairs(m2)[i] == keyless_triples(kp)[i]);
    }
}

/// An input map is rebuilt from its `(type, value)` pairs without its key origins: those are
/// the pairs with key data, which the keyless encoding leaves out.
pub proof fn lemma_input_pairs_roundtrip(m: MwebInputModel)
    requires
        input_map_writable(m),
    ensures
        input_from_pairs(keyless_pairs(input_kv_pairs(m))) == (MwebInputModel {
            master_scan_key_origin: None,
            master_spend_key_origin: None,
            ..m
        }),
{
    let m2 = MwebInputModel { master_scan_key_origin: None, master_spend_key_origin: None, ..m };
    lemma_plain_input_pairs(m);
    lemma_input_kv_roundtrip(m2);
}

/// Combining with an empty map changes nothing, either way round, and combining a map with
/// itself gives it back.
pub proof fn lemma_input_combine_identity(a: MwebInputModel)
    ensures
        input_combine(a, empty_input_map()) == a,
        input_combine(empty_input_map(), a) == a,
        input_combine(a, a) == a,
{
    assert(input_combine(a, empty_input_map()) =~= a);
    assert(input_combine(empty_input_map(), a) =~= a);
    assert(input_combine(a, a) =~= a);
}

/// Combining is associative.
pub proof fn lemma_input_combine_assoc(a: MwebInputModel, b: MwebInputModel, c: MwebInputModel)
    ensures
        input_combine(input_combine(a, b), c) == input_combine(a, input_combine(b, c)),
{
    assert(input_combine(input_combine(a, b), c) =~= input_combine(a, input_combine(b, c)));
}

/// Combining keeps every field the first map already has and takes each missing one from the
/// second map (BIP-174 combine).
pub proof fn lemma_input_combine_fields(a: MwebInputModel, b: MwebInputModel)
    ensures
        ({
            let c = input_combine(a, b);
            &&& (a.output_id is Some ==> c.output_id == a.output_id) && (a.output_id is None ==> c.output_id == b.output_id)
            &&& (a.commit is Some ==> c.commit == a.commit) && (a.commit is None ==> c.commit == b.commit)
            &&& (a.output_pubkey is Some ==> c.output_pubkey == a.output_pubkey) && (a.output_pubkey is None ==> c.output_pubkey == b.output_pubkey)
            &&& (a.input_pubkey is Some ==> c.input_pubkey == a.input_pubkey) && (a.input_pubkey is None ==> c.input_pubkey == b.input_pubkey)
            &&& (a.features is Some ==> c.features == a.features) && (a.features is None ==> c.features == b.features)
            &&& (a.signature is Some ==> c.signature == a.signature) && (a.signature is None ==> c.signature == b.signature)
            &&& (a.address_index is Some ==> c.address_index == a.address_index) && (a.address_index is None ==> c.address_index == b.address_index)
            &&& (a.amount is Some ==> c.amount == a.amount) && (a.amount is None ==> c.amount == b.amount)
            &&& (a.shared_secret is Some ==> c.shared_secret == a.shared_secret) && (a.shared_secret is None ==> c.shared_secret == b.shared_secret)
            &&& (a.key_exchange_pubkey is Some ==> c.key_exchange_pubkey == a.key_exchange_pubkey) && (a.key_exchange_pubkey is None ==> c.key_exchange_pubkey == b.key_exchange_pubkey)
            &&& (a.master_scan_key_origin is Some ==> c.master_scan_key_origin == a.master_scan_key_origin) && (a.master_scan_key_origin is None ==> c.master_scan_key_origin == b.master_scan_key_origin)
            &&& (a.master_spend_key_origin is Some ==> c.master_spend_key_origin == a.master_spend_key_origin) && (a.master_spend_key_origin is None ==> c.master_spend_key_origin == b.master_spend_key_origin)
            &&& (a.extra_data is Some ==> c.extra_data == a.extra_data) && (a.extra_data is None ==> c.extra_data == b.extra_data)
        }),
{
}

/// What each input field type does when applied with value `v` and no key data (ltcd type
/// numbers): 0x90 sets the output id (32 bytes), 0x91 the commitment (33 bytes), 0x92 the
/// output key, 0x93 the input key, 0x94 the features (first byte), 0x95 the signature, 0x96 the
/// address index (4 bytes little-endian), 0x97 the amount (8 bytes little-endian), 0x98 the
/// shared secret (32 bytes), 0x99 the key-exchange key, 0x9C the extra data. With key data,
/// only the key origins (0x9A scan, 0x9B spend) change: to the key secp256k1 parses from the
/// key data and the key source the value holds, when both read. Anything else changes nothing.
pub proof fn lemma_input_apply_types(m: MwebInputModel, key: Seq<u8>, v: Seq<u8>)
    ensures
        input_apply(m, 0x90, Seq::<u8>::empty(), v) == if v.len() == 32 {
            MwebInputModel { output_id: Some(v), ..m }
        } else {
            m
        },
        input_apply(m, 0x91, Seq::<u8>::empty(), v) == if v.len() == 33 {
            MwebInputModel { commit: Some(v), ..m }
        } else {
            m
        },
        input_apply(m, 0x92, Seq::<u8>::empty(), v) == (MwebInputModel { output_pubkey: Some(v), ..m }),
        input_apply(m, 0x93, Seq::<u8>::empty(), v) == (MwebInputModel { input_pubkey: Some(v), ..m }),
        input_apply(m, 0x94, Seq::<u8>::empty(), v) == if v.len() > 0 {
            MwebInputModel { features: Some(v[0]), ..m }
        } else {
            m
        },
        input_apply(m, 0x95, Seq::<u8>::empty(), v) == (MwebInputModel { signature: Some(v), ..m }),
        input_apply(m, 0x96, Seq::<u8>::empty(), v) == if v.len() == 4 {
            MwebInputModel { address_index: Some(le_value(v) as u32), ..m }
        } else {
            m
        },
        input_apply(m, 0x97, Seq::<u8>::empty(), v) == if v.len() == 8 {
            MwebInputModel { amount: Some(le_value(v) as u64), ..m }
        } else {
            m
        },
        input_apply(m, 0x98, Seq::<u8>::empty(), v) == if v.len() == 32 {
            MwebInputModel { shared_secret: Some(v), ..m }
        } else {
            m
        },
        input_apply(m, 0x99, Seq::<u8>::empty(), v) == (MwebInputModel { key_exchange_pubkey: Some(v), ..m }),
        input_apply(m, 0x9C, Seq::<u8>::empty(), v) == (MwebInputModel { extra_data: Some(v), ..m }),
        key.len() > 0 ==> forall|t: u8| t != 0x9A && t != 0x9B ==> #[trigger] input_apply(m, t, key, v) == m,
        forall|t: u8| (t < 0x90 || t > 0x9C) ==> #[trigger] input_apply(m, t, key, v) == m,
        ({
            let r = input_apply(m, 0x9A, key, v);
            &&& r == (MwebInputModel { master_scan_key_origin: r.master_scan_key_origin, ..m })
            &&& (secp256k1_parse_public_key(key) is Some && parse_key_source(v) is Some
                ==> r.master_scan_key_origin == Some((secp256k1_parse_public_key(key)->0, parse_key_source(v)->0)))
            &&& (secp256k1_parse_public_key(key) is None || parse_key_source(v) is None
                ==> r.master_scan_key_origin == m.master_scan_key_origin)
        }),
        ({
            let r = input_apply(m, 0x9B, key, v);
            &&& r == (MwebInputModel { master_spend_key_origin: r.master_spend_key_origin, ..m })
            &&& (secp256k1_parse_public_key(key) is Some && parse_key_source(v) is Some
                ==> r.master_spend_key_origin == Some((secp256k1_parse_public_key(key)->0, parse_key_source(v)->0)))
            &&& (secp256k1_parse_public_key(key) is None || parse_key_source(v) is None
                ==> r.master_spend_key_origin == m.master_spend_key_origin)
        }),
{
    assert(Seq::<u8>::empty().len() == 0);
}

} // verus!
