//! Raw PSBT key-value pairs and BIP-32 key sources, as they appear in MWEB PSBT maps.
//!
//! A pair is a key (its CompactSize length including the type byte, the type byte, the key
//! data) followed by a value (a CompactSize length and the bytes). A key of length zero is the
//! separator that ends a map.

use vstd::prelude::*;
use crate::encoding::{
    byte_vec_bytes, compact_size_bytes, le_bytes, le_value, lemma_byte_vec_roundtrip, lemma_le_bytes_len,
    lemma_compact_size_len, lemma_compact_size_roundtrip, lemma_le_roundtrip, lemma_pow256_values, parse_byte_vec,
    parse_compact_size, parse_fixed, parse_u8, read_byte_vec, read_compact_size, read_fixed,
    read_le, read_u8, write_byte_vec, write_compact_size, write_le, append_bytes, copy_bytes,
};
use crate::psbt::Error;
use crate::wire::lemma_skip_skip;

verus! {

broadcast use lemma_skip_skip;

/// The most bytes a vector read from a PSBT may take.
pub const MAX_VEC_SIZE: u64 = 4_000_000;

/// A PSBT key: its type byte and key data.
#[derive(Clone, Debug, PartialEq, Eq, PartialOrd, Ord, Hash)]
pub struct Key {
    pub type_value: u8,
    pub key: Vec<u8>,
}

impl View for Key {
    type V = (u8, Seq<u8>);

    open spec fn view(&self) -> (u8, Seq<u8>) {
        (self.type_value, self.key@)
    }
}

/// A PSBT key-value pair.
#[derive(Clone, Debug, PartialEq, Eq, Hash)]
pub struct Pair {
    pub key: Key,
    pub value: Vec<u8>,
}

/// A pair as a type byte, key data and value.
pub type PairModel = (u8, Seq<u8>, Seq<u8>);

impl View for Pair {
    type V = PairModel;

    open spec fn view(&self) -> PairModel {
        (self.key.type_value, self.key.key@, self.value@)
    }
}

/// The first `m` bytes of `s`, or all of it when it is shorter.
pub open spec fn limit(s: Seq<u8>, m: nat) -> Seq<u8> {
    if s.len() > m {
        s.take(m as int)
    } else {
        s
    }
}

/// Decoding of one pair. A zero key length is the separator; the value is read from at most
/// `MAX_VEC_SIZE` bytes.
pub open spec fn parse_pair(s: Seq<u8>) -> Result<(PairModel, nat), Error> {
    match parse_compact_size(s) {
        Err(e) => Err(Error::ConsensusEncoding(e)),
        Ok((size, n0)) => if size == 0 {
            Err(Error::NoMorePairs)
        } else if size - 1 > MAX_VEC_SIZE {
            Err(Error::OversizedVectorAllocation { requested: (size - 1) as u64, max: MAX_VEC_SIZE })
        } else {
            match parse_u8(s.skip(n0 as int)) {
                Err(e) => Err(Error::ConsensusEncoding(e)),
                Ok((t, n1)) => match parse_fixed(s.skip((n0 + n1) as int), (size - 1) as nat) {
                    Err(e) => Err(Error::ConsensusEncoding(e)),
                    Ok((key, n2)) => match parse_byte_vec(
                        limit(s.skip((n0 + n1 + n2) as int), MAX_VEC_SIZE as nat),
                    ) {
                        Err(e) => Err(Error::ConsensusEncoding(e)),
                        Ok((value, n3)) => Ok(((t, key, value), n0 + n1 + n2 + n3)),
                    },
                },
            }
        },
    }
}

/// The bytes of a pair.
pub open spec fn pair_bytes(t: PairModel) -> Seq<u8> {
    compact_size_bytes((t.1.len() + 1) as u64) + seq![t.0] + t.1 + byte_vec_bytes(t.2)
}

/// The pairs that read back as themselves: key data and value that fit a PSBT vector.
pub open spec fn pair_fits(t: PairModel) -> bool {
    &&& t.1.len() <= MAX_VEC_SIZE
    &&& byte_vec_bytes(t.2).len() <= MAX_VEC_SIZE
}

/// Reads one pair at `pos`.
pub fn decode_pair(data: &[u8], pos: usize) -> (res: Result<(Pair, usize), Error>)
    requires
        pos <= data@.len(),
    ensures
        match parse_pair(data@.skip(pos as int)) {
            Ok((t, n)) => res matches Ok((p, end)) && p@ == t && end == pos + n,
            Err(e) => res == Err::<(Pair, usize), Error>(e),
        },
        res matches Ok((_, end)) ==> pos <= end <= data@.len(),
{
    let (size, p0) = match read_compact_size(data, pos) {
        Ok(r) => r,
        Err(e) => return Err(Error::ConsensusEncoding(e)),
    };
    if size == 0 {
        return Err(Error::NoMorePairs);
    }
    let key_byte_size = size - 1;
    if key_byte_size > MAX_VEC_SIZE {
        return Err(Error::OversizedVectorAllocation { requested: key_byte_size, max: MAX_VEC_SIZE });
    }
    let (type_value, p1) = match read_u8(data, p0) {
        Ok(r) => r,
        Err(e) => return Err(Error::ConsensusEncoding(e)),
    };
    let (key, p2) = match read_fixed(data, p1, key_byte_size as usize) {
        Ok(r) => r,
        Err(e) => return Err(Error::ConsensusEncoding(e)),
    };
    let remaining = data.len() - p2;
    let window = if remaining as u64 > MAX_VEC_SIZE {
        MAX_VEC_SIZE as usize
    } else {
        remaining
    };
    let sub = vstd::slice::slice_subrange(data, p2, p2 + window);
    assert(sub@ =~= limit(data@.skip(p2 as int), MAX_VEC_SIZE as nat));
    assert(sub@.skip(0) =~= sub@);
    let (value, p3) = match read_byte_vec(sub, 0) {
        Ok(r) => r,
        Err(e) => return Err(Error::ConsensusEncoding(e)),
    };
    Ok((Pair { key: Key { type_value, key }, value }, p2 + p3))
}

/// Appends the bytes of the pair `(type_value, key, value)`.
pub fn serialize_pair(type_value: u8, key: &[u8], value: &[u8], out: &mut Vec<u8>)
    requires
        key@.len() + 1 <= u64::MAX,
    ensures
        final(out)@ == old(out)@ + pair_bytes((type_value, key@, value@)),
{
    write_compact_size(key.len() as u64 + 1, out);
    out.push(type_value);
    append_bytes(out, key);
    write_byte_vec(value, out);
    assert(out@ =~= old(out)@ + pair_bytes((type_value, key@, value@)));
}

/// A pair that fits reads back as itself.
pub proof fn lemma_pair_roundtrip(t: PairModel, rest: Seq<u8>)
    requires
        pair_fits(t),
    ensures
        parse_pair(pair_bytes(t) + rest) == Ok::<(PairModel, nat), Error>((t, pair_bytes(t).len())),
{
    let c = compact_size_bytes((t.1.len() + 1) as u64);
    let b = byte_vec_bytes(t.2);
    let s = pair_bytes(t) + rest;
    lemma_compact_size_roundtrip((t.1.len() + 1) as u64, s.skip(c.len() as int));
    assert(s =~= c + s.skip(c.len() as int));
    assert(s.skip(c.len() as int) =~= seq![t.0] + (t.1 + (b + rest)));
    assert(s.skip((c.len() + 1) as int) =~= t.1 + (b + rest));
    assert(s.skip((c.len() + 1) as int).take(t.1.len() as int) =~= t.1);
    let after = s.skip((c.len() + 1 + t.1.len()) as int);
    assert(after =~= b + rest);
    let lim = limit(after, MAX_VEC_SIZE as nat);
    let r2 = if after.len() > MAX_VEC_SIZE { rest.take(MAX_VEC_SIZE - b.len()) } else { rest };
    assert(lim =~= b + r2);
    lemma_byte_vec_roundtrip(t.2, r2);
}

/// A pair read uses at least one byte and no more than there are.
pub proof fn lemma_parse_pair_len(s: Seq<u8>)
    ensures
        parse_pair(s) matches Ok((_, n)) ==> 1 <= n <= s.len(),
{
    lemma_compact_size_len(s);
    if let Ok((size, n0)) = parse_compact_size(s) {
        if size != 0 && size - 1 <= MAX_VEC_SIZE && n0 < s.len() {
            let t = s.skip((n0 + 1) as int);
            if t.len() >= size - 1 {
                let w = limit(t.skip((size - 1) as int), MAX_VEC_SIZE as nat);
                lemma_compact_size_len(w);
            }
        }
    }
}

/// A zero key length ends a map.
pub proof fn lemma_separator(rest: Seq<u8>)
    ensures
        parse_pair(seq![0u8] + rest) == Err::<(PairModel, nat), Error>(Error::NoMorePairs),
{
    lemma_compact_size_roundtrip(0, rest);
    assert(compact_size_bytes(0) =~= seq![0u8]);
}

// ----- Key sources -------------------------------------------------------------------------------

/// A BIP-32 key source: the master key fingerprint and the derivation path, each child number
/// as its `u32` (hardened ones with the top bit set).
#[derive(Clone, Debug, PartialEq, Eq, PartialOrd, Ord, Hash)]
pub struct KeySource {
    pub fingerprint: [u8; 4],
    pub path: Vec<u32>,
}

impl View for KeySource {
    type V = (Seq<u8>, Seq<u32>);

    open spec fn view(&self) -> (Seq<u8>, Seq<u32>) {
        (self.fingerprint@, self.path@)
    }
}

/// Child numbers as 4-byte little-endian words.
pub open spec fn child_numbers_bytes(path: Seq<u32>) -> Seq<u8>
    decreases path.len(),
{
    if path.len() == 0 {
        Seq::empty()
    } else {
        child_numbers_bytes(path.drop_last()) + le_bytes(path.last() as nat, 4)
    }
}

/// The PSBT value of a key source: the fingerprint, then each child number.
pub open spec fn key_source_bytes(ks: (Seq<u8>, Seq<u32>)) -> Seq<u8> {
    ks.0 + child_numbers_bytes(ks.1)
}

/// The words of `s`, which must be whole.
pub open spec fn child_numbers_of(s: Seq<u8>) -> Seq<u32> {
    Seq::new(s.len() / 4, |i: int| le_value(s.subrange(4 * i, 4 * i + 4)) as u32)
}

/// Decoding of a key source: a fingerprint of four bytes and whole 4-byte words.
pub open spec fn parse_key_source(s: Seq<u8>) -> Option<(Seq<u8>, Seq<u32>)> {
    if s.len() < 4 || (s.len() - 4) % 4 != 0 {
        None
    } else {
        Some((s.take(4), child_numbers_of(s.skip(4))))
    }
}

/// Reads a key source, or `None` when the bytes are not one.
pub fn deserialize_key_source(bytes: &[u8]) -> (res: Option<KeySource>)
    ensures
        match parse_key_source(bytes@) {
            Some(m) => res matches Some(ks) && ks@ == m,
            None => res is None,
        },
{
    if bytes.len() < 4 {
        return None;
    }
    let n = bytes.len() - 4;
    if n % 4 != 0 {
        return None;
    }
    let mut fingerprint = [0u8; 4];
    fingerprint[0] = bytes[0];
    fingerprint[1] = bytes[1];
    fingerprint[2] = bytes[2];
    fingerprint[3] = bytes[3];
    assert(fingerprint@ =~= bytes@.take(4));
    let ghost d = bytes@.skip(4);
    let mut path: Vec<u32> = Vec::new();
    let mut i: usize = 0;
    let words = n / 4;
    while i < words
        invariant
            n == bytes@.len() - 4,
            words == n / 4,
            d == bytes@.skip(4),
            i <= words,
            path@.len() == i,
            forall|j: int| 0 <= j < i ==> path@[j] == child_numbers_of(d)[j],
        decreases words - i,
    {
        let w = read_le(bytes, 4 + 4 * i, 4);
        proof {
            lemma_pow256_values();
            crate::encoding::lemma_le_value_bound(bytes@.subrange(4 + 4 * i, 4 + 4 * i + 4));
            assert(d.subrange(4 * i, 4 * i + 4) =~= bytes@.subrange(4 + 4 * i, 4 + 4 * i + 4));
        }
        path.push(w as u32);
        i = i + 1;
    }
    assert(path@ =~= child_numbers_of(d));
    Some(KeySource { fingerprint, path })
}

/// The PSBT value of a key source.
pub fn serialize_key_source(ks: &KeySource) -> (bytes: Vec<u8>)
    ensures
        bytes@ == key_source_bytes(ks@),
{
    let mut out: Vec<u8> = Vec::new();
    append_bytes(&mut out, ks.fingerprint.as_slice());
    let mut i: usize = 0;
    while i < ks.path.len()
        invariant
            i <= ks.path@.len(),
            out@ == ks.fingerprint@ + child_numbers_bytes(ks.path@.take(i as int)),
        decreases ks.path@.len() - i,
    {
        write_le(ks.path[i] as u64, 4, &mut out);
        proof {
            assert(ks.path@.take(i + 1).drop_last() =~= ks.path@.take(i as int));
        }
        i = i + 1;
    }
    assert(ks.path@.take(ks.path@.len() as int) =~= ks.path@);
    out
}

proof fn lemma_child_numbers_roundtrip(path: Seq<u32>)
    ensures
        child_numbers_bytes(path).len() == 4 * path.len(),
        child_numbers_of(child_numbers_bytes(path)) == path,
    decreases path.len(),
{
    if path.len() > 0 {
        let p = path.drop_last();
        lemma_child_numbers_roundtrip(p);
        lemma_pow256_values();
        lemma_le_roundtrip(path.last() as nat, 4);
        let b = child_numbers_bytes(path);
        let bp = child_numbers_bytes(p);
        let w = le_bytes(path.last() as nat, 4);
        assert(b == bp + w);
        assert forall|i: int| 0 <= i < path.len() implies #[trigger] child_numbers_of(b)[i] == path[i] by {
            if i < p.len() {
                assert(b.subrange(4 * i, 4 * i + 4) =~= bp.subrange(4 * i, 4 * i + 4));
                assert(child_numbers_of(bp)[i] == p[i]);
            } else {
                assert(b.subrange(4 * i, 4 * i + 4) =~= w);
            }
        }
        assert(child_numbers_of(b) =~= path);
    } else {
        assert(child_numbers_of(Seq::<u8>::empty()) =~= path);
    }
}

/// A key source written and read back is the same key source.
pub proof fn lemma_key_source_roundtrip(ks: (Seq<u8>, Seq<u32>))
    requires
        ks.0.len() == 4,
    ensures
        parse_key_source(key_source_bytes(ks)) == Some(ks),
{
    lemma_child_numbers_roundtrip(ks.1);
    let s = key_source_bytes(ks);
    assert(s.take(4) =~= ks.0);
    assert(s.skip(4) =~= child_numbers_bytes(ks.1));
}

proof fn lemma_child_numbers_layout(path: Seq<u32>)
    ensures
        child_numbers_bytes(path).len() == 4 * path.len(),
        forall|i: int| 0 <= i < path.len() ==> #[trigger] child_numbers_bytes(path).subrange(4 * i, 4 * i + 4) == le_bytes(path[i] as nat, 4),
    decreases path.len(),
{
    lemma_child_numbers_roundtrip(path);
    if path.len() > 0 {
        let p = path.drop_last();
        lemma_child_numbers_layout(p);
        lemma_le_bytes_len(path.last() as nat, 4);
        let b = child_numbers_bytes(path);
        let bp = child_numbers_bytes(p);
        assert forall|i: int| 0 <= i < path.len() implies #[trigger] b.subrange(4 * i, 4 * i + 4) == le_bytes(path[i] as nat, 4) by {
            if i < p.len() {
                assert(b.subrange(4 * i, 4 * i + 4) =~= bp.subrange(4 * i, 4 * i + 4));
            } else {
                assert(b.subrange(4 * i, 4 * i + 4) =~= le_bytes(path.last() as nat, 4));
            }
        }
    }
}

/// A key source is written as its 4-byte fingerprint, then each child number as 4 little-endian
/// bytes, in path order.
pub proof fn lemma_key_source_layout(ks: (Seq<u8>, Seq<u32>))
    requires
        ks.0.len() == 4,
    ensures
        key_source_bytes(ks).len() == 4 + 4 * ks.1.len(),
        key_source_bytes(ks).take(4) == ks.0,
        forall|i: int| 0 <= i < ks.1.len() ==> #[trigger] key_source_bytes(ks).subrange(4 + 4 * i, 8 + 4 * i) == le_bytes(ks.1[i] as nat, 4),
{
    lemma_child_numbers_layout(ks.1);
    let s = key_source_bytes(ks);
    let c = child_numbers_bytes(ks.1);
    assert(s.take(4) =~= ks.0);
    assert forall|i: int| 0 <= i < ks.1.len() implies #[trigger] s.subrange(4 + 4 * i, 8 + 4 * i) == le_bytes(ks.1[i] as nat, 4) by {
        assert(s.subrange(4 + 4 * i, 8 + 4 * i) =~= c.subrange(4 * i, 4 * i + 4));
    }
}

/// A pair is written as the CompactSize length of its key (the type byte and the key data),
/// the type byte, the key data, then the CompactSize length of its value and the value.
pub proof fn lemma_pair_layout(t: PairModel)
    ensures
        pair_bytes(t) == compact_size_bytes((t.1.len() + 1) as u64) + seq![t.0] + t.1 + compact_size_bytes(
            t.2.len() as u64,
        ) + t.2,
{
    assert(pair_bytes(t) =~= compact_size_bytes((t.1.len() + 1) as u64) + seq![t.0] + t.1 + compact_size_bytes(
        t.2.len() as u64,
    ) + t.2);
}

} // verus!
