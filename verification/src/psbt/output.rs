//! The MWEB fields of one PSBT output.

use vstd::prelude::*;
use crate::psbt::raw::Key;
use crate::psbt::types::{
    MWEB_COMMIT_OUTPUT_TYPE, MWEB_EXTRA_DATA_OUTPUT_TYPE, MWEB_FEATURES_OUTPUT_TYPE,
    MWEB_OUTPUT_FIELD_MAX, MWEB_OUTPUT_FIELD_MIN, MWEB_OUTPUT_PUBKEY_OUTPUT_TYPE,
    MWEB_RANGE_PROOF_OUTPUT_TYPE, MWEB_SENDER_PUBKEY_OUTPUT_TYPE, MWEB_SIGNATURE_OUTPUT_TYPE,
    MWEB_STANDARD_FIELDS_OUTPUT_TYPE, MWEB_STEALTH_ADDRESS_OUTPUT_TYPE,
};
use crate::psbt::{clone_opt_bytes, opt_bytes_view, to_array, to_vec};
use crate::psbt::kernel::first_some;
use crate::wire::models;

verus! {

/// MWEB fields for one PSBT output.
#[derive(Debug, Clone, PartialEq, Eq, Hash)]
pub struct MwebOutput {
    /// Stealth address bytes (66 bytes: scan pubkey || spend pubkey).
    pub stealth_address: Option<Vec<u8>>,
    /// Commitment.
    pub commit: Option<[u8; 33]>,
    /// Features.
    pub features: Option<u8>,
    /// Sender pubkey.
    pub sender_pubkey: Option<Vec<u8>>,
    /// Output pubkey.
    pub output_pubkey: Option<Vec<u8>>,
    /// Standard fields blob.
    pub standard_fields: Option<Vec<u8>>,
    /// Range proof.
    pub range_proof: Option<Vec<u8>>,
    /// Signature.
    pub signature: Option<Vec<u8>>,
    /// Extra data.
    pub extra_data: Option<Vec<u8>>,
}

#[verifier::ext_equal]
pub struct MwebOutputModel {
    pub stealth_address: Option<Seq<u8>>,
    pub commit: Option<Seq<u8>>,
    pub features: Option<u8>,
    pub sender_pubkey: Option<Seq<u8>>,
    pub output_pubkey: Option<Seq<u8>>,
    pub standard_fields: Option<Seq<u8>>,
    pub range_proof: Option<Seq<u8>>,
    pub signature: Option<Seq<u8>>,
    pub extra_data: Option<Seq<u8>>,
}

impl View for MwebOutput {
    type V = MwebOutputModel;

    open spec fn view(&self) -> MwebOutputModel {
        MwebOutputModel {
            stealth_address: opt_bytes_view(self.stealth_address),
            commit: opt_bytes_view(self.commit),
            features: self.features,
            sender_pubkey: opt_bytes_view(self.sender_pubkey),
            output_pubkey: opt_bytes_view(self.output_pubkey),
            standard_fields: opt_bytes_view(self.standard_fields),
            range_proof: opt_bytes_view(self.range_proof),
            signature: opt_bytes_view(self.signature),
            extra_data: opt_bytes_view(self.extra_data),
        }
    }
}

/// The output map with no field set.
pub open spec fn empty_output_map() -> MwebOutputModel {
    MwebOutputModel {
        stealth_address: None,
        commit: None,
        features: None,
        sender_pubkey: None,
        output_pubkey: None,
        standard_fields: None,
        range_proof: None,
        signature: None,
        extra_data: None,
    }
}

impl Default for MwebOutput {
    fn default() -> (o: MwebOutput)
        ensures
            o@ == empty_output_map(),
    {
        MwebOutput {
            stealth_address: None,
            commit: None,
            features: None,
            sender_pubkey: None,
            output_pubkey: None,
            standard_fields: None,
            range_proof: None,
            signature: None,
            extra_data: None,
        }
    }
}

/// One `(type, value)` pair when the field is set.
pub open spec fn opt_pair(ty: u8, v: Option<Seq<u8>>) -> Seq<(u8, Seq<u8>)> {
    match v {
        Some(x) => seq![(ty, x)],
        None => Seq::empty(),
    }
}

pub open spec fn opt_byte(o: Option<u8>) -> Option<Seq<u8>> {
    match o {
        Some(f) => Some(seq![f]),
        None => None,
    }
}

/// The output map as `(type, value)` pairs, in type order.
pub open spec fn output_pairs(m: MwebOutputModel) -> Seq<(u8, Seq<u8>)> {
    opt_pair(MWEB_STEALTH_ADDRESS_OUTPUT_TYPE, m.stealth_address) + opt_pair(
        MWEB_COMMIT_OUTPUT_TYPE,
        m.commit,
    ) + opt_pair(MWEB_FEATURES_OUTPUT_TYPE, opt_byte(m.features)) + opt_pair(
        MWEB_SENDER_PUBKEY_OUTPUT_TYPE,
        m.sender_pubkey,
    ) + opt_pair(MWEB_OUTPUT_PUBKEY_OUTPUT_TYPE, m.output_pubkey) + opt_pair(
        MWEB_STANDARD_FIELDS_OUTPUT_TYPE,
        m.standard_fields,
    ) + opt_pair(MWEB_RANGE_PROOF_OUTPUT_TYPE, m.range_proof) + opt_pair(
        MWEB_SIGNATURE_OUTPUT_TYPE,
        m.signature,
    ) + opt_pair(MWEB_EXTRA_DATA_OUTPUT_TYPE, m.extra_data)
}

/// The output map after applying the field `(ty, value)`: a commitment that is not 33 bytes or
/// empty features are ignored, and a type that is no output field changes nothing.
pub open spec fn output_apply(m: MwebOutputModel, ty: u8, value: Seq<u8>) -> MwebOutputModel {
    if ty == MWEB_STEALTH_ADDRESS_OUTPUT_TYPE {
        MwebOutputModel { stealth_address: Some(value), ..m }
    } else if ty == MWEB_COMMIT_OUTPUT_TYPE && value.len() == 33 {
        MwebOutputModel { commit: Some(value), ..m }
    } else if ty == MWEB_FEATURES_OUTPUT_TYPE && value.len() > 0 {
        MwebOutputModel { features: Some(value[0]), ..m }
    } else if ty == MWEB_SENDER_PUBKEY_OUTPUT_TYPE {
        MwebOutputModel { sender_pubkey: Some(value), ..m }
    } else if ty == MWEB_OUTPUT_PUBKEY_OUTPUT_TYPE {
        MwebOutputModel { output_pubkey: Some(value), ..m }
    } else if ty == MWEB_STANDARD_FIELDS_OUTPUT_TYPE {
        MwebOutputModel { standard_fields: Some(value), ..m }
    } else if ty == MWEB_RANGE_PROOF_OUTPUT_TYPE {
        MwebOutputModel { range_proof: Some(value), ..m }
    } else if ty == MWEB_SIGNATURE_OUTPUT_TYPE {
        MwebOutputModel { signature: Some(value), ..m }
    } else if ty == MWEB_EXTRA_DATA_OUTPUT_TYPE {
        MwebOutputModel { extra_data: Some(value), ..m }
    } else {
        m
    }
}

/// Applying the pairs `ps` to `m`, in order.
pub open spec fn output_apply_all(m: MwebOutputModel, ps: Seq<(u8, Seq<u8>)>) -> MwebOutputModel
    decreases ps.len(),
{
    if ps.len() == 0 {
        m
    } else {
        output_apply(output_apply_all(m, ps.drop_last()), ps.last().0, ps.last().1)
    }
}

/// The output map built from `(type, value)` pairs, applied in order.
pub open spec fn output_from_pairs(ps: Seq<(u8, Seq<u8>)>) -> MwebOutputModel {
    output_apply_all(empty_output_map(), ps)
}

/// The entries of an unknown map that are output fields: an empty key data and a type in the
/// output range, as `(type, value)`.
pub open spec fn output_entries(us: Seq<((u8, Seq<u8>), Seq<u8>)>) -> Seq<(u8, Seq<u8>)>
    decreases us.len(),
{
    if us.len() == 0 {
        Seq::empty()
    } else {
        let e = us.last();
        output_entries(us.drop_last()) + if e.0.1.len() == 0 && MWEB_OUTPUT_FIELD_MIN <= e.0.0
            <= MWEB_OUTPUT_FIELD_MAX {
            seq![(e.0.0, e.1)]
        } else {
            Seq::empty()
        }
    }
}

/// `a` merged with `b`: each field keeps `a`'s value when set, else takes `b`'s.
pub open spec fn output_combine(a: MwebOutputModel, b: MwebOutputModel) -> MwebOutputModel {
    MwebOutputModel {
        stealth_address: first_some(a.stealth_address, b.stealth_address),
        commit: first_some(a.commit, b.commit),
        features: first_some(a.features, b.features),
        sender_pubkey: first_some(a.sender_pubkey, b.sender_pubkey),
        output_pubkey: first_some(a.output_pubkey, b.output_pubkey),
        standard_fields: first_some(a.standard_fields, b.standard_fields),
        range_proof: first_some(a.range_proof, b.range_proof),
        signature: first_some(a.signature, b.signature),
        extra_data: first_some(a.extra_data, b.extra_data),
    }
}

fn push_opt_pair(pairs: &mut Vec<(u8, Vec<u8>)>, ty: u8, v: Option<Vec<u8>>)
    ensures
        models(final(pairs)@) == models(old(pairs)@) + opt_pair(ty, opt_bytes_view(v)),
{
    match v {
        Some(x) => {
            let ghost xv = x@;
            pairs.push((ty, x));
            assert(models(pairs@) =~= models(old(pairs)@) + opt_pair(ty, Some(xv)));
        },
        None => {
            assert(models(pairs@) =~= models(old(pairs)@) + Seq::<(u8, Seq<u8>)>::empty());
        },
    }
}

impl MwebOutput {
    /// Encode as PSBT key-value pairs (`0x90+`, empty key).
    pub fn to_pairs(&self) -> (pairs: Vec<(u8, Vec<u8>)>)
        ensures
            models(pairs@) == output_pairs(self@),
    {
        let mut pairs: Vec<(u8, Vec<u8>)> = Vec::new();
        assert(models(pairs@) =~= Seq::<(u8, Seq<u8>)>::empty());
        push_opt_pair(&mut pairs, MWEB_STEALTH_ADDRESS_OUTPUT_TYPE, clone_opt_bytes(&self.stealth_address));
        push_opt_pair(
            &mut pairs,
            MWEB_COMMIT_OUTPUT_TYPE,
            match &self.commit {
                Some(c) => Some(to_vec(c.as_slice())),
                None => None,
            },
        );
        push_opt_pair(
            &mut pairs,
            MWEB_FEATURES_OUTPUT_TYPE,
            match self.features {
                Some(f) => {
                    let mut v: Vec<u8> = Vec::new();
                    v.push(f);
                    assert(v@ =~= seq![f]);
                    Some(v)
                },
                None => None,
            },
        );
        push_opt_pair(&mut pairs, MWEB_SENDER_PUBKEY_OUTPUT_TYPE, clone_opt_bytes(&self.sender_pubkey));
        push_opt_pair(&mut pairs, MWEB_OUTPUT_PUBKEY_OUTPUT_TYPE, clone_opt_bytes(&self.output_pubkey));
        push_opt_pair(&mut pairs, MWEB_STANDARD_FIELDS_OUTPUT_TYPE, clone_opt_bytes(&self.standard_fields));
        push_opt_pair(&mut pairs, MWEB_RANGE_PROOF_OUTPUT_TYPE, clone_opt_bytes(&self.range_proof));
        push_opt_pair(&mut pairs, MWEB_SIGNATURE_OUTPUT_TYPE, clone_opt_bytes(&self.signature));
        push_opt_pair(&mut pairs, MWEB_EXTRA_DATA_OUTPUT_TYPE, clone_opt_bytes(&self.extra_data));
        assert(models(pairs@) =~= output_pairs(self@));
        pairs
    }

    /// Apply one typed output field.
    pub fn apply_field(&mut self, field_ty: u8, value: &[u8])
        ensures
            final(self)@ == output_apply(old(self)@, field_ty, value@),
    {
        if field_ty == MWEB_STEALTH_ADDRESS_OUTPUT_TYPE {
            self.stealth_address = Some(to_vec(value));
        } else if field_ty == MWEB_COMMIT_OUTPUT_TYPE && value.len() == 33 {
            self.commit = Some(to_array::<33>(value));
        } else if field_ty == MWEB_FEATURES_OUTPUT_TYPE && value.len() > 0 {
            self.features = Some(value[0]);
        } else if field_ty == MWEB_SENDER_PUBKEY_OUTPUT_TYPE {
            self.sender_pubkey = Some(to_vec(value));
        } else if field_ty == MWEB_OUTPUT_PUBKEY_OUTPUT_TYPE {
            self.output_pubkey = Some(to_vec(value));
        } else if field_ty == MWEB_STANDARD_FIELDS_OUTPUT_TYPE {
            self.standard_fields = Some(to_vec(value));
        } else if field_ty == MWEB_RANGE_PROOF_OUTPUT_TYPE {
            self.range_proof = Some(to_vec(value));
        } else if field_ty == MWEB_SIGNATURE_OUTPUT_TYPE {
            self.signature = Some(to_vec(value));
        } else if field_ty == MWEB_EXTRA_DATA_OUTPUT_TYPE {
            self.extra_data = Some(to_vec(value));
        }
        assert(self@ =~= output_apply(old(self)@, field_ty, value@));
    }

    /// Build from `(field_ty, value)` pairs, applied in order.
    pub fn from_pairs(pairs: Vec<(u8, Vec<u8>)>) -> (o: MwebOutput)
        ensures
            o@ == output_from_pairs(models(pairs@)),
    {
        let ghost ps = models(pairs@);
        let mut out = MwebOutput::default();
        let mut i: usize = 0;
        assert(ps.take(0) =~= Seq::<(u8, Seq<u8>)>::empty());
        while i < pairs.len()
            invariant
                i <= pairs@.len(),
                ps == models(pairs@),
                out@ == output_from_pairs(ps.take(i as int)),
            decreases pairs@.len() - i,
        {
            out.apply_field(pairs[i].0, pairs[i].1.as_slice());
            proof {
                assert(ps.take(i + 1).drop_last() =~= ps.take(i as int));
                assert(ps[i as int] == pairs@[i as int]@);
            }
            i = i + 1;
        }
        assert(ps.take(pairs@.len() as int) =~= ps);
        out
    }

    /// Parse from the entries of a PSBT output `unknown` map, in map order (MWEB `0x90+` keys
    /// with empty key data only).
    pub fn from_unknown_map(unknown: &[(Key, Vec<u8>)]) -> (o: MwebOutput)
        ensures
            o@ == output_from_pairs(output_entries(models(unknown@))),
    {
        let ghost us = models(unknown@);
        let mut out = MwebOutput::default();
        let mut i: usize = 0;
        assert(us.take(0) =~= Seq::<((u8, Seq<u8>), Seq<u8>)>::empty());
        while i < unknown.len()
            invariant
                i <= unknown@.len(),
                us == models(unknown@),
                out@ == output_from_pairs(output_entries(us.take(i as int))),
            decreases unknown@.len() - i,
        {
            let k = &unknown[i].0;
            let v = &unknown[i].1;
            proof {
                assert(us[i as int] == (k@, v@));
                assert(us.take(i + 1).drop_last() =~= us.take(i as int));
            }
            let ghost before = output_entries(us.take(i as int));
            if k.key.len() == 0 && MWEB_OUTPUT_FIELD_MIN <= k.type_value && k.type_value <= MWEB_OUTPUT_FIELD_MAX {
                out.apply_field(k.type_value, v.as_slice());
                proof {
                    let after = output_entries(us.take(i + 1));
                    assert(after =~= before.push((k.type_value, v@)));
                    assert(after.drop_last() =~= before);
                }
            } else {
                assert(output_entries(us.take(i + 1)) =~= before);
            }
            i = i + 1;
        }
        assert(us.take(unknown@.len() as int) =~= us);
        out
    }

    /// Merge `other` into `self`, keeping existing values when set.
    pub fn combine(&mut self, other: MwebOutput)
        ensures
            final(self)@ == output_combine(old(self)@, other@),
    {
        if self.stealth_address.is_none() {
            self.stealth_address = other.stealth_address;
        }
        if self.commit.is_none() {
            self.commit = other.commit;
        }
        if self.features.is_none() {
            self.features = other.features;
        }
        if self.sender_pubkey.is_none() {
            self.sender_pubkey = other.sender_pubkey;
        }
        if self.output_pubkey.is_none() {
            self.output_pubkey = other.output_pubkey;
        }
        if self.standard_fields.is_none() {
            self.standard_fields = other.standard_fields;
        }
        if self.range_proof.is_none() {
            self.range_proof = other.range_proof;
        }
        if self.signature.is_none() {
            self.signature = other.signature;
        }
        if self.extra_data.is_none() {
            self.extra_data = other.extra_data;
        }
        assert(self@ =~= output_combine(old(self)@, other@));
    }
}

proof fn lemma_apply_all_concat(m: MwebOutputModel, a: Seq<(u8, Seq<u8>)>, b: Seq<(u8, Seq<u8>)>)
    ensures
        output_apply_all(m, a + b) == output_apply_all(output_apply_all(m, a), b),
    decreases b.len(),
{
    if b.len() == 0 {
        assert(a + b =~= a);
    } else {
        assert((a + b).drop_last() =~= a + b.drop_last());
        lemma_apply_all_concat(m, a, b.drop_last());
    }
}

proof fn lemma_apply_opt_pair(m: MwebOutputModel, ty: u8, v: Option<Seq<u8>>)
    ensures
        output_apply_all(m, opt_pair(ty, v)) == match v {
            Some(x) => output_apply(m, ty, x),
            None => m,
        },
{
    let s = opt_pair(ty, v);
    if s.len() > 0 {
        assert(s.drop_last() =~= Seq::<(u8, Seq<u8>)>::empty());
        assert(output_apply_all(m, Seq::<(u8, Seq<u8>)>::empty()) == m);
    }
}

/// The first four output pairs (stealth address, commitment, features, sender key) applied to
/// `x`.
proof fn lemma_apply_front(x: MwebOutputModel, m: MwebOutputModel)
    requires
        m.commit matches Some(c) ==> c.len() == 33,
    ensures
        output_apply_all(
            x,
            opt_pair(MWEB_STEALTH_ADDRESS_OUTPUT_TYPE, m.stealth_address) + opt_pair(
                MWEB_COMMIT_OUTPUT_TYPE,
                m.commit,
            ) + opt_pair(MWEB_FEATURES_OUTPUT_TYPE, opt_byte(m.features)) + opt_pair(
                MWEB_SENDER_PUBKEY_OUTPUT_TYPE,
                m.sender_pubkey,
            ),
        ) == (MwebOutputModel {
            stealth_address: first_some(m.stealth_address, x.stealth_address),
            commit: first_some(m.commit, x.commit),
            features: first_some(m.features, x.features),
            sender_pubkey: first_some(m.sender_pubkey, x.sender_pubkey),
            ..x
        }),
{
    let s0 = opt_pair(MWEB_STEALTH_ADDRESS_OUTPUT_TYPE, m.stealth_address);
    let s1 = opt_pair(MWEB_COMMIT_OUTPUT_TYPE, m.commit);
    let s2 = opt_pair(MWEB_FEATURES_OUTPUT_TYPE, opt_byte(m.features));
    let s3 = opt_pair(MWEB_SENDER_PUBKEY_OUTPUT_TYPE, m.sender_pubkey);
    lemma_apply_all_concat(x, s0 + s1 + s2, s3);
    lemma_apply_all_concat(x, s0 + s1, s2);
    lemma_apply_all_concat(x, s0, s1);
    let x1 = output_apply_all(x, s0);
    assert(x1 == MwebOutputModel { stealth_address: first_some(m.stealth_address, x.stealth_address), ..x }) by {
        lemma_apply_opt_pair(x, MWEB_STEALTH_ADDRESS_OUTPUT_TYPE, m.stealth_address);
    }
    let x2 = output_apply_all(x1, s1);
    assert(x2 == MwebOutputModel { commit: first_some(m.commit, x.commit), ..x1 }) by {
        lemma_apply_opt_pair(x1, MWEB_COMMIT_OUTPUT_TYPE, m.commit);
    }
    let x3 = output_apply_all(x2, s2);
    assert(x3 == MwebOutputModel { features: first_some(m.features, x.features), ..x2 }) by {
        lemma_apply_opt_pair(x2, MWEB_FEATURES_OUTPUT_TYPE, opt_byte(m.features));
    }
    let x4 = output_apply_all(x3, s3);
    assert(x4 == MwebOutputModel { sender_pubkey: first_some(m.sender_pubkey, x.sender_pubkey), ..x3 }) by {
        lemma_apply_opt_pair(x3, MWEB_SENDER_PUBKEY_OUTPUT_TYPE, m.sender_pubkey);
    }
}

/// The last five output pairs applied after the pairs `p`.
proof fn lemma_apply_back(x: MwebOutputModel, p: Seq<(u8, Seq<u8>)>, m: MwebOutputModel)
    ensures
        output_apply_all(
            x,
            p + opt_pair(MWEB_OUTPUT_PUBKEY_OUTPUT_TYPE, m.output_pubkey) + opt_pair(
                MWEB_STANDARD_FIELDS_OUTPUT_TYPE,
                m.standard_fields,
            ) + opt_pair(MWEB_RANGE_PROOF_OUTPUT_TYPE, m.range_proof) + opt_pair(
                MWEB_SIGNATURE_OUTPUT_TYPE,
                m.signature,
            ) + opt_pair(MWEB_EXTRA_DATA_OUTPUT_TYPE, m.extra_data),
        ) == ({
            let y = output_apply_all(x, p);
            MwebOutputModel {
                output_pubkey: first_some(m.output_pubkey, y.output_pubkey),
                standard_fields: first_some(m.standard_fields, y.standard_fields),
                range_proof: first_some(m.range_proof, y.range_proof),
                signature: first_some(m.signature, y.signature),
                extra_data: first_some(m.extra_data, y.extra_data),
                ..y
            }
        }),
{
    let s4 = opt_pair(MWEB_OUTPUT_PUBKEY_OUTPUT_TYPE, m.output_pubkey);
    let s5 = opt_pair(MWEB_STANDARD_FIELDS_OUTPUT_TYPE, m.standard_fields);
    let s6 = opt_pair(MWEB_RANGE_PROOF_OUTPUT_TYPE, m.range_proof);
    let s7 = opt_pair(MWEB_SIGNATURE_OUTPUT_TYPE, m.signature);
    let s8 = opt_pair(MWEB_EXTRA_DATA_OUTPUT_TYPE, m.extra_data);
    lemma_apply_all_concat(x, p + s4 + s5 + s6 + s7, s8);
    lemma_apply_all_concat(x, p + s4 + s5 + s6, s7);
    lemma_apply_all_concat(x, p + s4 + s5, s6);
    lemma_apply_all_concat(x, p + s4, s5);
    lemma_apply_all_concat(x, p, s4);
    let y = output_apply_all(x, p);
    let x5 = output_apply_all(y, s4);
    assert(x5 == MwebOutputModel { output_pubkey: first_some(m.output_pubkey, y.output_pubkey), ..y }) by {
        lemma_apply_opt_pair(y, MWEB_OUTPUT_PUBKEY_OUTPUT_TYPE, m.output_pubkey);
    }
    let x6 = output_apply_all(x5, s5);
    assert(x6 == MwebOutputModel { standard_fields: first_some(m.standard_fields, y.standard_fields), ..x5 }) by {
        lemma_apply_opt_pair(x5, MWEB_STANDARD_FIELDS_OUTPUT_TYPE, m.standard_fields);
    }
    let x7 = output_apply_all(x6, s6);
    assert(x7 == MwebOutputModel { range_proof: first_some(m.range_proof, y.range_proof), ..x6 }) by {
        lemma_apply_opt_pair(x6, MWEB_RANGE_PROOF_OUTPUT_TYPE, m.range_proof);
    }
    let x8 = output_apply_all(x7, s7);
    assert(x8 == MwebOutputModel { signature: first_some(m.signature, y.signature), ..x7 }) by {
        lemma_apply_opt_pair(x7, MWEB_SIGNATURE_OUTPUT_TYPE, m.signature);
    }
    let x9 = output_apply_all(x8, s8);
    assert(x9 == MwebOutputModel { extra_data: first_some(m.extra_data, y.extra_data), ..x8 }) by {
        lemma_apply_opt_pair(x8, MWEB_EXTRA_DATA_OUTPUT_TYPE, m.extra_data);
    }
}

/// An output map is rebuilt from its `(type, value)` pairs; a commitment must be 33 bytes (one
/// of another size is not taken back).
pub proof fn lemma_output_pairs_roundtrip(m: MwebOutputModel)
    requires
        m.commit matches Some(c) ==> c.len() == 33,
    ensures
        output_from_pairs(output_pairs(m)) == m,
{
    let front = opt_pair(MWEB_STEALTH_ADDRESS_OUTPUT_TYPE, m.stealth_address) + opt_pair(
        MWEB_COMMIT_OUTPUT_TYPE,
        m.commit,
    ) + opt_pair(MWEB_FEATURES_OUTPUT_TYPE, opt_byte(m.features)) + opt_pair(
        MWEB_SENDER_PUBKEY_OUTPUT_TYPE,
        m.sender_pubkey,
    );
    let e = empty_output_map();
    lemma_apply_front(e, m);
    lemma_apply_back(e, front, m);
    assert(output_from_pairs(output_pairs(m)) =~= m);
}

/// `(type, value)` pairs as unknown-map entries with empty key data.
pub open spec fn as_unknown_entries(ps: Seq<(u8, Seq<u8>)>) -> Seq<((u8, Seq<u8>), Seq<u8>)> {
    ps.map_values(|p: (u8, Seq<u8>)| ((p.0, Seq::<u8>::empty()), p.1))
}

/// Unknown-map entries with empty key data and an output field type are all taken, in order.
pub proof fn lemma_output_entries_keep(ps: Seq<(u8, Seq<u8>)>)
    requires
        forall|i: int| 0 <= i < ps.len() ==> MWEB_OUTPUT_FIELD_MIN <= (#[trigger] ps[i]).0 <= MWEB_OUTPUT_FIELD_MAX,
    ensures
        output_entries(as_unknown_entries(ps)) == ps,
    decreases ps.len(),
{
    if ps.len() > 0 {
        assert(as_unknown_entries(ps).drop_last() =~= as_unknown_entries(ps.drop_last()));
        assert(MWEB_OUTPUT_FIELD_MIN <= ps[ps.len() - 1].0 <= MWEB_OUTPUT_FIELD_MAX);
        lemma_output_entries_keep(ps.drop_last());
        assert(ps.drop_last().push(ps.last()) =~= ps);
    } else {
        assert(ps =~= Seq::<(u8, Seq<u8>)>::empty());
    }
}

/// The pairs of an output map are output field types.
pub proof fn lemma_output_pair_types(m: MwebOutputModel)
    ensures
        forall|i: int| 0 <= i < output_pairs(m).len() ==> MWEB_OUTPUT_FIELD_MIN <= (#[trigger] output_pairs(m)[i]).0 <= MWEB_OUTPUT_FIELD_MAX,
{
    let typed = |q: Seq<(u8, Seq<u8>)>| forall|i: int| 0 <= i < q.len() ==> MWEB_OUTPUT_FIELD_MIN <= (#[trigger] q[i]).0 <= MWEB_OUTPUT_FIELD_MAX;
    assert forall|ty: u8, v: Option<Seq<u8>>| MWEB_OUTPUT_FIELD_MIN <= ty <= MWEB_OUTPUT_FIELD_MAX implies #[trigger] typed(opt_pair(ty, v)) by {}
    assert forall|a: Seq<(u8, Seq<u8>)>, b: Seq<(u8, Seq<u8>)>| typed(a) && typed(b) implies #[trigger] typed(a + b) by {
        assert forall|i: int| 0 <= i < (a + b).len() implies MWEB_OUTPUT_FIELD_MIN <= (#[trigger] (a + b)[i]).0 <= MWEB_OUTPUT_FIELD_MAX by {
            if i < a.len() {
                assert((a + b)[i] == a[i]);
            } else {
                assert((a + b)[i] == b[i - a.len()]);
            }
        }
    }
    assert(typed(output_pairs(m)));
}

/// An output map written into a PSBT output's unknown map (empty key data) reads back as the
/// same map.
pub proof fn lemma_output_unknown_map_roundtrip(m: MwebOutputModel)
    requires
        m.commit matches Some(c) ==> c.len() == 33,
    ensures
        output_from_pairs(output_entries(as_unknown_entries(output_pairs(m)))) == m,
{
    lemma_output_pair_types(m);
    lemma_output_entries_keep(output_pairs(m));
    lemma_output_pairs_roundtrip(m);
}

/// Combining with an empty map changes nothing, either way round, and combining a map with
/// itself gives it back.
pub proof fn lemma_output_combine_identity(a: MwebOutputModel)
    ensures
        output_combine(a, empty_output_map()) == a,
        output_combine(empty_output_map(), a) == a,
        output_combine(a, a) == a,
{
    assert(output_combine(a, empty_output_map()) =~= a);
    assert(output_combine(empty_output_map(), a) =~= a);
    assert(output_combine(a, a) =~= a);
}

/// Combining is associative.
pub proof fn lemma_output_combine_assoc(a: MwebOutputModel, b: MwebOutputModel, c: MwebOutputModel)
    ensures
        output_combine(output_combine(a, b), c) == output_combine(a, output_combine(b, c)),
{
    assert(output_combine(output_combine(a, b), c) =~= output_combine(a, output_combine(b, c)));
}

/// Combining keeps every field the first map already has and takes each missing one from the
/// second map (BIP-174 combine).
pub proof fn lemma_output_combine_fields(a: MwebOutputModel, b: MwebOutputModel)
    ensures
        ({
            let c = output_combine(a, b);
            &&& (a.stealth_address is Some ==> c.stealth_address == a.stealth_address) && (a.stealth_address is None ==> c.stealth_address == b.stealth_address)
            &&& (a.commit is Some ==> c.commit == a.commit) && (a.commit is None ==> c.commit == b.commit)
            &&& (a.features is Some ==> c.features == a.features) && (a.features is None ==> c.features == b.features)
            &&& (a.sender_pubkey is Some ==> c.sender_pubkey == a.sender_pubkey) && (a.sender_pubkey is None ==> c.sender_pubkey == b.sender_pubkey)
            &&& (a.output_pubkey is Some ==> c.output_pubkey == a.output_pubkey) && (a.output_pubkey is None ==> c.output_pubkey == b.output_pubkey)
            &&& (a.standard_fields is Some ==> c.standard_fields == a.standard_fields) && (a.standard_fields is None ==> c.standard_fields == b.standard_fields)
            &&& (a.range_proof is Some ==> c.range_proof == a.range_proof) && (a.range_proof is None ==> c.range_proof == b.range_proof)
            &&& (a.signature is Some ==> c.signature == a.signature) && (a.signature is None ==> c.signature == b.signature)
            &&& (a.extra_data is Some ==> c.extra_data == a.extra_data) && (a.extra_data is None ==> c.extra_data == b.extra_data)
        }),
{
}

/// What each output field type does when applied with value `v` (ltcd type numbers): 0x90
/// sets the stealth address, 0x91 the commitment (33 bytes), 0x92 the features (first byte),
/// 0x93 the sender key, 0x94 the output key, 0x95 the standard fields, 0x96 the range proof,
/// 0x97 the signature, 0x98 the extra data. A commitment of another size, empty features, and
/// other types change nothing.
pub proof fn lemma_output_apply_types(m: MwebOutputModel, v: Seq<u8>)
    ensures
        output_apply(m, 0x90, v) == (MwebOutputModel { stealth_address: Some(v), ..m }),
        output_apply(m, 0x91, v) == if v.len() == 33 {
            MwebOutputModel { commit: Some(v), ..m }
        } else {
            m
        },
        output_apply(m, 0x92, v) == if v.len() > 0 {
            MwebOutputModel { features: Some(v[0]), ..m }
        } else {
            m
        },
        output_apply(m, 0x93, v) == (MwebOutputModel { sender_pubkey: Some(v), ..m }),
        output_apply(m, 0x94, v) == (MwebOutputModel { output_pubkey: Some(v), ..m }),
        output_apply(m, 0x95, v) == (MwebOutputModel { standard_fields: Some(v), ..m }),
        output_apply(m, 0x96, v) == (MwebOutputModel { range_proof: Some(v), ..m }),
        output_apply(m, 0x97, v) == (MwebOutputModel { signature: Some(v), ..m }),
        output_apply(m, 0x98, v) == (MwebOutputModel { extra_data: Some(v), ..m }),
        forall|t: u8| (t < 0x90 || t > 0x98) ==> #[trigger] output_apply(m, t, v) == m,
{
}

} // verus!
