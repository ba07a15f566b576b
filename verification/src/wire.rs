//! Consensus encoding of structured values: the `Wire` trait that each wire type implements,
//! vectors of wire values, fixed byte arrays, and whole-buffer (de)serialization.

use vstd::prelude::*;
use crate::encoding::{
    append_bytes, compact_size_bytes, decoded_as, lemma_compact_size_roundtrip, parse_compact_size,
    parse_fixed, read_compact_size, write_compact_size, DecodeError, ParseFailure, SpecParse,
};

verus! {

/// A value whose fields cannot be written as its feature bits require.
#[derive(Clone, Copy, Debug, PartialEq, Eq)]
pub enum EncodeError {
    KernelFeeMissing,
    KernelPeginMissing,
    KernelLockHeightMissing,
    KernelStealthExcessMissing,
    InputPublicKeyMissing,
}

pub open spec fn encode_error_message(e: EncodeError) -> Seq<char> {
    match e {
        EncodeError::KernelFeeMissing => "Kernel.fee bit set but None"@,
        EncodeError::KernelPeginMissing => "Kernel.pegin bit set but None"@,
        EncodeError::KernelLockHeightMissing => "Kernel.lock_height bit set but None"@,
        EncodeError::KernelStealthExcessMissing => "Kernel.stealth_excess bit set but None"@,
        EncodeError::InputPublicKeyMissing => "Input.input_public_key bit set but None"@,
    }
}

impl EncodeError {
    /// The human-readable reason.
    pub fn message(&self) -> (m: &'static str)
        ensures
            m@ == encode_error_message(*self),
    {
        match self {
            EncodeError::KernelFeeMissing => "Kernel.fee bit set but None",
            EncodeError::KernelPeginMissing => "Kernel.pegin bit set but None",
            EncodeError::KernelLockHeightMissing => "Kernel.lock_height bit set but None",
            EncodeError::KernelStealthExcessMissing => "Kernel.stealth_excess bit set but None",
            EncodeError::InputPublicKeyMissing => "Input.input_public_key bit set but None",
        }
    }
}

/// What an encoder does: write all bytes of the value, or write some bytes and stop with an
/// error.
pub type EncodeOutcome = Result<Seq<u8>, (Seq<u8>, EncodeError)>;

/// Encoding `a` and then, if that succeeded, `b`.
pub open spec fn enc_then(a: EncodeOutcome, b: EncodeOutcome) -> EncodeOutcome {
    match a {
        Ok(x) => match b {
            Ok(y) => Ok(x + y),
            Err((w, e)) => Err((x + w, e)),
        },
        Err(f) => Err(f),
    }
}

/// Encoding parts `i..n` one after the other, stopping at the first that fails.
#[verifier::opaque]
pub open spec fn enc_parts(part: spec_fn(nat) -> EncodeOutcome, i: nat, n: nat) -> EncodeOutcome
    decreases n - i,
{
    if i >= n {
        Ok(Seq::empty())
    } else {
        enc_then(part(i), enc_parts(part, i + 1, n))
    }
}

pub proof fn lemma_enc_parts_start(part: spec_fn(nat) -> EncodeOutcome, n: nat)
    ensures
        enc_parts(part, 0, n) == enc_then(Ok(Seq::empty()), enc_parts(part, 0, n)),
{
    reveal(enc_parts);
    match enc_parts(part, 0, n) {
        Ok(b) => assert(Seq::<u8>::empty() + b =~= b),
        Err((w, e)) => assert(Seq::<u8>::empty() + w =~= w),
    }
}

/// The bytes of parts `i..n`, one after the other.
pub open spec fn concat_parts(bytes: spec_fn(nat) -> Seq<u8>, i: nat, n: nat) -> Seq<u8>
    decreases n - i,
{
    if i >= n {
        Seq::empty()
    } else {
        bytes(i) + concat_parts(bytes, i + 1, n)
    }
}

/// Parts that all succeed encode as the concatenation of their bytes.
pub proof fn lemma_enc_parts_all(
    part: spec_fn(nat) -> EncodeOutcome,
    bytes: spec_fn(nat) -> Seq<u8>,
    i: nat,
    n: nat,
)
    requires
        forall|j: nat| i <= j < n ==> #[trigger] part(j) == Ok::<Seq<u8>, (Seq<u8>, EncodeError)>(bytes(j)),
    ensures
        enc_parts(part, i, n) == Ok::<Seq<u8>, (Seq<u8>, EncodeError)>(concat_parts(bytes, i, n)),
    decreases n - i,
{
    reveal(enc_parts);
    if i < n {
        lemma_enc_parts_all(part, bytes, i + 1, n);
        assert(part(i) == Ok::<Seq<u8>, (Seq<u8>, EncodeError)>(bytes(i)));
    }
}

/// A part writer's result `r`, having turned `before` into `after`, is what `expected` says.
pub open spec fn wrote(
    r: Result<(), EncodeError>,
    before: Seq<u8>,
    after: Seq<u8>,
    expected: EncodeOutcome,
) -> bool {
    match expected {
        Ok(b) => after == before + b && r is Ok,
        Err((w, e)) => after == before + w && r == Err::<(), EncodeError>(e),
    }
}

/// Writes a wire value as one part of an encoding.
pub fn write_wire_part<T: Wire>(x: &T, out: &mut Vec<u8>) -> (r: Result<(), EncodeError>)
    ensures
        wrote(r, old(out)@, final(out)@, T::spec_encode(x@)),
{
    match x.consensus_encode(out) {
        Ok(_) => Ok(()),
        Err(e) => Err(e),
    }
}

/// An encoder that started at `start` and has written the parts before `i` moves past part
/// `i`, or stops with that part's error.
pub proof fn lemma_enc_parts_advance(
    total: EncodeOutcome,
    part: spec_fn(nat) -> EncodeOutcome,
    i: nat,
    n: nat,
    start: int,
    before: Seq<u8>,
    after: Seq<u8>,
    r: Result<(), EncodeError>,
)
    requires
        i < n,
        0 <= start <= before.len(),
        total == enc_then(Ok(before.skip(start)), enc_parts(part, i, n)),
        wrote(r, before, after, part(i)),
    ensures
        start <= after.len(),
        after.take(start) == before.take(start),
        r is Ok ==> total == enc_then(Ok(after.skip(start)), enc_parts(part, i + 1, n)),
        r matches Err(e) ==> total == Err::<Seq<u8>, (Seq<u8>, EncodeError)>((after.skip(start), e)),
{
    reveal(enc_parts);
    match part(i) {
        Ok(b) => {
            assert(after.skip(start) =~= before.skip(start) + b);
            assert(after.take(start) =~= before.take(start));
            lemma_enc_then_ok(before.skip(start), b, enc_parts(part, i + 1, n));
        },
        Err((v, e)) => {
            assert(after.skip(start) =~= before.skip(start) + v);
            assert(after.take(start) =~= before.take(start));
        },
    }
}

/// An encoder at `start` that has not written anything yet.
pub proof fn lemma_enc_parts_begin(total: EncodeOutcome, part: spec_fn(nat) -> EncodeOutcome, n: nat, out: Seq<u8>)
    requires
        total == enc_parts(part, 0, n),
    ensures
        total == enc_then(Ok(out.skip(out.len() as int)), enc_parts(part, 0, n)),
{
    assert(out.skip(out.len() as int) =~= Seq::<u8>::empty());
    lemma_enc_parts_start(part, n);
}

/// An encoder that wrote all parts, starting at `start`, satisfies its contract.
pub proof fn lemma_enc_parts_end(
    total: EncodeOutcome,
    part: spec_fn(nat) -> EncodeOutcome,
    n: nat,
    start: int,
    old_out: Seq<u8>,
    out: Seq<u8>,
)
    requires
        0 <= start <= out.len(),
        old_out.len() == start,
        out.take(start) == old_out,
        total == enc_then(Ok(out.skip(start)), enc_parts(part, n, n)),
    ensures
        encoded_as(Ok((out.len() - start) as usize), old_out, out, total),
{
    lemma_enc_parts_done(total, part, n, out.skip(start));
    assert(out =~= old_out + out.skip(start));
}

/// An encoder that stopped with `e`, having started at `start`, satisfies its contract.
pub proof fn lemma_enc_parts_stopped(total: EncodeOutcome, e: EncodeError, start: int, old_out: Seq<u8>, out: Seq<u8>)
    requires
        0 <= start <= out.len(),
        old_out.len() == start,
        out.take(start) == old_out,
        total == Err::<Seq<u8>, (Seq<u8>, EncodeError)>((out.skip(start), e)),
    ensures
        encoded_as(Err(e), old_out, out, total),
{
    assert(out =~= old_out + out.skip(start));
}

/// All parts written: the encoding is `w`.
pub proof fn lemma_enc_parts_done(total: EncodeOutcome, part: spec_fn(nat) -> EncodeOutcome, n: nat, w: Seq<u8>)
    requires
        total == enc_then(Ok(w), enc_parts(part, n, n)),
    ensures
        total == Ok::<Seq<u8>, (Seq<u8>, EncodeError)>(w),
{
    reveal(enc_parts);
    assert(w + Seq::<u8>::empty() =~= w);
}

/// `res`, returned by an encoder that turned `before` into `after`, is what `expected` says.
pub open spec fn encoded_as(
    res: Result<usize, EncodeError>,
    before: Seq<u8>,
    after: Seq<u8>,
    expected: EncodeOutcome,
) -> bool {
    match expected {
        Ok(b) => after == before + b && res == Ok::<usize, EncodeError>(b.len() as usize),
        Err((w, e)) => after == before + w && res == Err::<usize, EncodeError>(e),
    }
}

pub proof fn lemma_enc_then_ok(x: Seq<u8>, y: Seq<u8>, c: EncodeOutcome)
    ensures
        enc_then(Ok(x), enc_then(Ok(y), c)) == enc_then(Ok(x + y), c),
{
    match c {
        Ok(z) => assert(x + (y + z) =~= x + y + z),
        Err((w, e)) => assert(x + (y + w) =~= x + y + w),
    }
}

pub broadcast proof fn lemma_skip_skip(s: Seq<u8>, a: int, b: int)
    requires
        0 <= a,
        0 <= b,
        a + b <= s.len(),
    ensures
        #[trigger] s.skip(a).skip(b) == s.skip(a + b),
{
    assert(s.skip(a).skip(b) =~= s.skip(a + b));
}

/// A type with a consensus encoding.
pub trait Wire: View + Sized {
    /// Decoding of the value at the start of `s`.
    spec fn spec_parse(s: Seq<u8>) -> SpecParse<Self::V>;

    /// What encoding a value with model `m` writes.
    spec fn spec_encode(m: Self::V) -> EncodeOutcome;

    /// The models that encode and read back to themselves.
    spec fn spec_well_formed(m: Self::V) -> bool;

    fn consensus_decode(data: &[u8], pos: usize) -> (res: Result<(Self, usize), DecodeError>)
        requires
            pos <= data@.len(),
        ensures
            decoded_as(res, pos as int, Self::spec_parse(data@.skip(pos as int))),
            res matches Ok((_, end)) ==> pos <= end <= data@.len(),
    ;

    fn consensus_encode(&self, out: &mut Vec<u8>) -> (res: Result<usize, EncodeError>)
        ensures
            encoded_as(res, old(out)@, final(out)@, Self::spec_encode(self@)),
    ;

    /// A well-formed value encodes, and reading its encoding back gives the value and the
    /// encoding's length, whatever follows it.
    proof fn lemma_roundtrip(m: Self::V, rest: Seq<u8>)
        requires
            Self::spec_well_formed(m),
        ensures
            Self::spec_encode(m) is Ok,
            Self::spec_parse(Self::spec_encode(m)->Ok_0 + rest) == Ok::<(Self::V, nat), DecodeError>(
                (m, Self::spec_encode(m)->Ok_0.len()),
            ),
    ;
}

// ----- Vectors of wire values --------------------------------------------------------------------

/// The models of a vector's items.
pub open spec fn models<T: View>(v: Seq<T>) -> Seq<T::V> {
    v.map_values(|x: T| x@)
}

/// Appends `ms` (already read, `n` bytes) in front of a further parse result.
pub open spec fn parse_after<V>(ms: Seq<V>, n: nat, r: SpecParse<Seq<V>>) -> SpecParse<Seq<V>> {
    match r {
        Ok((rest, k)) => Ok((ms + rest, n + k)),
        Err(e) => Err(e),
    }
}

/// `count` values, one after the other.
pub open spec fn parse_list<T: Wire>(s: Seq<u8>, count: nat) -> SpecParse<Seq<T::V>>
    decreases count,
{
    if count == 0 {
        Ok((Seq::empty(), 0))
    } else {
        match T::spec_parse(s) {
            Err(e) => Err(e),
            Ok((m, n)) => parse_after(seq![m], n, parse_list::<T>(s.skip(n as int), (count - 1) as nat)),
        }
    }
}

/// A vector on the wire: its CompactSize length, then its items.
#[verifier::opaque]
pub open spec fn parse_vec<T: Wire>(s: Seq<u8>) -> SpecParse<Seq<T::V>> {
    match parse_compact_size(s) {
        Err(e) => Err(e),
        Ok((count, n)) => parse_after(Seq::empty(), n, parse_list::<T>(s.skip(n as int), count as nat)),
    }
}

pub open spec fn encode_list<T: Wire>(ms: Seq<T::V>) -> EncodeOutcome
    decreases ms.len(),
{
    if ms.len() == 0 {
        Ok(Seq::empty())
    } else {
        enc_then(T::spec_encode(ms[0]), encode_list::<T>(ms.drop_first()))
    }
}

#[verifier::opaque]
pub open spec fn encode_vec<T: Wire>(ms: Seq<T::V>) -> EncodeOutcome {
    enc_then(Ok(compact_size_bytes(ms.len() as u64)), encode_list::<T>(ms))
}

/// `res`, returned by a vector decoder called at `pos`, is what `expected` says.
pub open spec fn decoded_vec_as<T: View>(
    res: Result<(Vec<T>, usize), DecodeError>,
    pos: int,
    expected: SpecParse<Seq<T::V>>,
) -> bool {
    match expected {
        Ok((ms, n)) => res matches Ok((v, end)) && models(v@) == ms && end == pos + n,
        Err(e) => res == Err::<(Vec<T>, usize), DecodeError>(e),
    }
}

/// Well-formed values written one after the other read back as the same values.
pub proof fn lemma_list_roundtrip<T: Wire>(ms: Seq<T::V>, rest: Seq<u8>)
    requires
        forall|i: int| 0 <= i < ms.len() ==> T::spec_well_formed(#[trigger] ms[i]),
    ensures
        encode_list::<T>(ms) is Ok,
        parse_list::<T>(encode_list::<T>(ms)->Ok_0 + rest, ms.len()) == Ok::<(Seq<T::V>, nat), DecodeError>(
            (ms, encode_list::<T>(ms)->Ok_0.len()),
        ),
    decreases ms.len(),
{
    if ms.len() == 0 {
        assert(ms =~= Seq::<T::V>::empty());
    } else {
        let tail = ms.drop_first();
        assert forall|i: int| 0 <= i < tail.len() implies T::spec_well_formed(#[trigger] tail[i]) by {
            assert(tail[i] == ms[i + 1]);
        }
        lemma_list_roundtrip::<T>(tail, rest);
        let bt = encode_list::<T>(tail)->Ok_0;
        T::lemma_roundtrip(ms[0], bt + rest);
        let b0 = T::spec_encode(ms[0])->Ok_0;
        let s = encode_list::<T>(ms)->Ok_0 + rest;
        assert(s =~= b0 + (bt + rest));
        assert(s.skip(b0.len() as int) =~= bt + rest);
        assert(seq![ms[0]] + tail =~= ms);
        assert(parse_list::<T>(s, ms.len()) == parse_after(
            seq![ms[0]],
            b0.len(),
            parse_list::<T>(bt + rest, tail.len()),
        ));
    }
}

/// A vector of well-formed values reads back as the same vector.
pub proof fn lemma_vec_roundtrip<T: Wire>(ms: Seq<T::V>, rest: Seq<u8>)
    requires
        ms.len() <= u64::MAX,
        forall|i: int| 0 <= i < ms.len() ==> T::spec_well_formed(#[trigger] ms[i]),
    ensures
        encode_vec::<T>(ms) is Ok,
        parse_vec::<T>(encode_vec::<T>(ms)->Ok_0 + rest) == Ok::<(Seq<T::V>, nat), DecodeError>(
            (ms, encode_vec::<T>(ms)->Ok_0.len()),
        ),
{
    reveal(encode_vec);
    reveal(parse_vec);
    lemma_list_roundtrip::<T>(ms, rest);
    let c = compact_size_bytes(ms.len() as u64);
    let b = encode_list::<T>(ms)->Ok_0;
    lemma_compact_size_roundtrip(ms.len() as u64, b + rest);
    let s = encode_vec::<T>(ms)->Ok_0 + rest;
    assert(s =~= c + (b + rest));
    assert(s.skip(c.len() as int) =~= b + rest);
    assert(Seq::<T::V>::empty() + ms =~= ms);
}

/// Reads a CompactSize count and that many values.
pub fn decode_vec<T: Wire>(data: &[u8], pos: usize) -> (res: Result<(Vec<T>, usize), DecodeError>)
    requires
        pos <= data@.len(),
    ensures
        decoded_vec_as(res, pos as int, parse_vec::<T>(data@.skip(pos as int))),
        res matches Ok((_, end)) ==> pos <= end <= data@.len(),
{
    reveal(parse_vec);
    broadcast use lemma_skip_skip;

    let (count, p0) = read_compact_size(data, pos)?;
    let ghost s0 = data@.skip(p0 as int);
    let mut items: Vec<T> = Vec::new();
    let mut p = p0;
    let mut i: u64 = 0;
    assert(data@.skip(pos as int).skip(p0 - pos) == s0);
    assert(models(items@) =~= Seq::<T::V>::empty());
    assert(parse_after(Seq::<T::V>::empty(), 0, parse_list::<T>(s0, count as nat)) == parse_list::<T>(s0, count as nat)) by {
        match parse_list::<T>(s0, count as nat) {
            Ok((ms, k)) => assert(Seq::<T::V>::empty() + ms =~= ms),
            Err(e) => {},
        }
    }
    while i < count
        invariant
            pos <= p0 <= p <= data@.len(),
            s0 == data@.skip(p0 as int),
            i <= count,
            parse_vec::<T>(data@.skip(pos as int)) == parse_after(
                Seq::<T::V>::empty(),
                (p0 - pos) as nat,
                parse_list::<T>(s0, count as nat),
            ),
            parse_list::<T>(s0, count as nat) == parse_after(
                models(items@),
                (p - p0) as nat,
                parse_list::<T>(data@.skip(p as int), (count - i) as nat),
            ),
        decreases count - i,
    {
        let ghost before = models(items@);
        let ghost rest = data@.skip(p as int);
        let (item, q) = match T::consensus_decode(data, p) {
            Ok(r) => r,
            Err(e) => {
                assert(parse_list::<T>(rest, (count - i) as nat) == Err::<(Seq<T::V>, nat), DecodeError>(e));
                return Err(e);
            },
        };
        let ghost m = item@;
        proof {
            assert(rest.skip(q - p) == data@.skip(q as int));
            let tail = parse_list::<T>(data@.skip(q as int), (count - i - 1) as nat);
            match tail {
                Ok((ms, k)) => {
                    assert(before + (seq![m] + ms) =~= before.push(m) + ms);
                },
                Err(e) => {},
            }
        }
        items.push(item);
        assert(models(items@) =~= before.push(m));
        p = q;
        i = i + 1;
    }
    Ok((items, p))
}

/// Writes a CompactSize count and each item, stopping at the first item that fails.
pub fn encode_vec_items<T: Wire>(items: &Vec<T>, out: &mut Vec<u8>) -> (res: Result<usize, EncodeError>)
    ensures
        encoded_as(res, old(out)@, final(out)@, encode_vec::<T>(models(items@))),
{
    reveal(encode_vec);
    let ghost ms = models(items@);
    let start = out.len();
    write_compact_size(items.len() as u64, out);
    let mut i: usize = 0;
    proof {
        assert(ms.len() == items@.len());
        assert(ms.skip(0) =~= ms);
        assert(out@.subrange(start as int, out@.len() as int) =~= compact_size_bytes(ms.len() as u64));
        assert(out@.subrange(0, start as int) =~= old(out)@);
    }
    while i < items.len()
        invariant
            i <= items@.len(),
            ms == models(items@),
            start == old(out)@.len(),
            out@.len() >= start,
            out@.subrange(0, start as int) == old(out)@,
            encode_vec::<T>(ms) == enc_then(Ok(out@.subrange(start as int, out@.len() as int)), encode_list::<T>(ms.skip(i as int))),
        decreases items@.len() - i,
    {
        let ghost w = out@.subrange(start as int, out@.len() as int);
        let ghost before = out@;
        let ghost tail = encode_list::<T>(ms.skip(i + 1));
        proof {
            assert(ms.skip(i as int)[0] == ms[i as int]);
            assert(ms.skip(i as int).drop_first() =~= ms.skip(i + 1));
            assert(ms[i as int] == items@[i as int]@);
        }
        let r = items[i].consensus_encode(out);
        match r {
            Ok(_) => {
                proof {
                    let b = T::spec_encode(ms[i as int])->Ok_0;
                    lemma_enc_then_ok(w, b, tail);
                    assert(out@.subrange(start as int, out@.len() as int) =~= w + b);
                    assert(out@.subrange(0, start as int) =~= before.subrange(0, start as int));
                }
            },
            Err(e) => {
                proof {
                    let v = T::spec_encode(ms[i as int])->Err_0.0;
                    assert(out@ =~= old(out)@ + (w + v));
                }
                return Err(e);
            },
        }
        i = i + 1;
    }
    proof {
        assert(ms.skip(i as int) =~= Seq::<T::V>::empty());
        let w = out@.subrange(start as int, out@.len() as int);
        assert(w + Seq::<u8>::empty() =~= w);
        assert(out@ =~= old(out)@ + w);
    }
    Ok(out.len() - start)
}

// ----- Fixed byte arrays -------------------------------------------------------------------------

/// Reads a field of exactly `N` bytes into an array.
pub fn read_array<const N: usize>(data: &[u8], pos: usize) -> (res: Result<([u8; N], usize), DecodeError>)
    requires
        pos <= data@.len(),
    ensures
        decoded_as(res, pos as int, parse_fixed(data@.skip(pos as int), N as nat)),
        res matches Ok((_, end)) ==> pos <= end <= data@.len(),
{
    if data.len() - pos < N {
        return Err(DecodeError::UnexpectedEof);
    }
    let mut a: [u8; N] = [0u8; N];
    let mut i: usize = 0;
    let len = data.len();
    while i < N
        invariant
            i <= N,
            len == data@.len(),
            pos + N <= data@.len(),
            a@.len() == N,
            forall|k: int| 0 <= k < i ==> a@[k] == data@[pos + k],
        decreases N - i,
    {
        a[i] = data[pos + i];
        i = i + 1;
    }
    assert(a@ =~= data@.skip(pos as int).take(N as int));
    Ok((a, pos + N))
}

/// Appends the bytes of an array.
pub fn write_array<const N: usize>(a: &[u8; N], out: &mut Vec<u8>)
    ensures
        final(out)@ == old(out)@ + a@,
{
    append_bytes(out, a.as_slice());
}

// ----- Whole buffers -----------------------------------------------------------------------------

/// Decoding of a whole buffer: a value that uses every byte.
pub open spec fn parse_exact<T: Wire>(s: Seq<u8>) -> Result<T::V, DecodeError> {
    match T::spec_parse(s) {
        Err(e) => Err(e),
        Ok((m, n)) => if n == s.len() {
            Ok(m)
        } else {
            Err(DecodeError::ParseFailed(ParseFailure::DataNotConsumed))
        },
    }
}

/// Decodes a value that must take up all of `data`.
pub fn deserialize<T: Wire>(data: &[u8]) -> (res: Result<T, DecodeError>)
    ensures
        match parse_exact::<T>(data@) {
            Ok(m) => res matches Ok(v) && v@ == m,
            Err(e) => res matches Err(e2) && e2 == e,
        },
{
    assert(data@.skip(0) =~= data@);
    let (v, end) = T::consensus_decode(data, 0)?;
    if end == data.len() {
        Ok(v)
    } else {
        Err(DecodeError::ParseFailed(ParseFailure::DataNotConsumed))
    }
}

/// Encodes a value into a fresh buffer.
pub fn serialize<T: Wire>(v: &T) -> (res: Result<Vec<u8>, EncodeError>)
    ensures
        match T::spec_encode(v@) {
            Ok(b) => res matches Ok(bytes) && bytes@ == b,
            Err((_, e)) => res matches Err(e2) && e2 == e,
        },
{
    let mut out: Vec<u8> = Vec::new();
    match v.consensus_encode(&mut out) {
        Ok(_) => {
            assert(out@ =~= Seq::<u8>::empty() + out@);
            Ok(out)
        },
        Err(e) => Err(e),
    }
}

/// A well-formed value survives serialization followed by deserialization.
pub proof fn lemma_serialize_deserialize<T: Wire>(m: T::V)
    requires
        T::spec_well_formed(m),
    ensures
        T::spec_encode(m) is Ok,
        parse_exact::<T>(T::spec_encode(m)->Ok_0) == Ok::<T::V, DecodeError>(m),
{
    T::lemma_roundtrip(m, Seq::empty());
    assert(T::spec_encode(m)->Ok_0 + Seq::<u8>::empty() =~= T::spec_encode(m)->Ok_0);
}

/// The bytes of the items, one after the other, each written by `f`.
pub open spec fn concat_map<A>(ms: Seq<A>, f: spec_fn(A) -> Seq<u8>) -> Seq<u8>
    decreases ms.len(),
{
    if ms.len() == 0 {
        Seq::empty()
    } else {
        f(ms[0]) + concat_map(ms.drop_first(), f)
    }
}

proof fn lemma_encode_list_layout<T: Wire>(ms: Seq<T::V>, f: spec_fn(T::V) -> Seq<u8>)
    requires
        forall|i: int| 0 <= i < ms.len() ==> T::spec_encode(#[trigger] ms[i]) == Ok::<Seq<u8>, (Seq<u8>, EncodeError)>(f(ms[i])),
    ensures
        encode_list::<T>(ms) == Ok::<Seq<u8>, (Seq<u8>, EncodeError)>(concat_map(ms, f)),
    decreases ms.len(),
{
    if ms.len() > 0 {
        let rest = ms.drop_first();
        assert forall|i: int| 0 <= i < rest.len() implies T::spec_encode(#[trigger] rest[i]) == Ok::<Seq<u8>, (Seq<u8>, EncodeError)>(f(rest[i])) by {
            assert(rest[i] == ms[i + 1]);
        }
        lemma_encode_list_layout::<T>(rest, f);
        assert(T::spec_encode(ms[0]) == Ok::<Seq<u8>, (Seq<u8>, EncodeError)>(f(ms[0])));
    }
}

/// A vector whose items each encode as `f` gives is written as its CompactSize length, then
/// the items' bytes in order.
pub proof fn lemma_encode_vec_layout<T: Wire>(ms: Seq<T::V>, f: spec_fn(T::V) -> Seq<u8>)
    requires
        forall|i: int| 0 <= i < ms.len() ==> T::spec_encode(#[trigger] ms[i]) == Ok::<Seq<u8>, (Seq<u8>, EncodeError)>(f(ms[i])),
    ensures
        encode_vec::<T>(ms) == Ok::<Seq<u8>, (Seq<u8>, EncodeError)>(
            compact_size_bytes(ms.len() as u64) + concat_map(ms, f),
        ),
{
    reveal(encode_vec);
    lemma_encode_list_layout::<T>(ms, f);
}

} // verus!
