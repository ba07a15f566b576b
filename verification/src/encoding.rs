//! Consensus-encoding building blocks: decode errors, little-endian integers, fixed byte
//! arrays, Bitcoin's CompactSize `VarInt` and length-prefixed byte vectors.
//!
//! Every decoder reads from a byte slice at a position and is specified by a spec parser over
//! the remaining bytes, which returns the decoded value's model and the number of bytes used.

use vstd::prelude::*;

verus! {

/// Why a decoder rejected bytes that were otherwise long enough.
#[derive(Clone, Copy, Debug, PartialEq, Eq)]
pub enum ParseFailure {
    VarintOverflow,
    PegoutScriptEmpty,
    LockHeightOutOfRange,
    InvalidStealthExcess,
    InvalidInputOutputPublicKey,
    InvalidInputPublicKey,
    InvalidSenderPublicKey,
    InvalidReceiverPublicKey,
    InvalidKeyExchangePubkey,
    MissingKernel,
    DataNotConsumed,
}

pub open spec fn parse_failure_message(f: ParseFailure) -> Seq<char> {
    match f {
        ParseFailure::VarintOverflow => "MWEB varint overflow"@,
        ParseFailure::PegoutScriptEmpty => "Pegout scriptPubKey must not be empty"@,
        ParseFailure::LockHeightOutOfRange => "Kernel lock_height out of range"@,
        ParseFailure::InvalidStealthExcess => "invalid kernel stealth excess"@,
        ParseFailure::InvalidInputOutputPublicKey => "invalid input output_public_key"@,
        ParseFailure::InvalidInputPublicKey => "invalid input input_public_key"@,
        ParseFailure::InvalidSenderPublicKey => "invalid output sender_public_key"@,
        ParseFailure::InvalidReceiverPublicKey => "invalid output receiver_public_key"@,
        ParseFailure::InvalidKeyExchangePubkey => "invalid output key_exchange_pubkey"@,
        ParseFailure::MissingKernel => "MWEB transaction must contain at least one kernel"@,
        ParseFailure::DataNotConsumed => "data not consumed entirely when explicitly deserializing"@,
    }
}

impl ParseFailure {
    /// The human-readable reason carried by a `ParseFailed` error.
    pub fn message(&self) -> (m: &'static str)
        ensures
            m@ == parse_failure_message(*self),
    {
        match self {
            ParseFailure::VarintOverflow => "MWEB varint overflow",
            ParseFailure::PegoutScriptEmpty => "Pegout scriptPubKey must not be empty",
            ParseFailure::LockHeightOutOfRange => "Kernel lock_height out of range",
            ParseFailure::InvalidStealthExcess => "invalid kernel stealth excess",
            ParseFailure::InvalidInputOutputPublicKey => "invalid input output_public_key",
            ParseFailure::InvalidInputPublicKey => "invalid input input_public_key",
            ParseFailure::InvalidSenderPublicKey => "invalid output sender_public_key",
            ParseFailure::InvalidReceiverPublicKey => "invalid output receiver_public_key",
            ParseFailure::InvalidKeyExchangePubkey => "invalid output key_exchange_pubkey",
            ParseFailure::MissingKernel => "MWEB transaction must contain at least one kernel",
            ParseFailure::DataNotConsumed => "data not consumed entirely when explicitly deserializing",
        }
    }
}

/// Errors of consensus decoding.
#[derive(Clone, Copy, Debug, PartialEq, Eq)]
pub enum DecodeError {
    /// The input ended before the value did.
    UnexpectedEof,
    /// A CompactSize `VarInt` used a longer form than its value needs.
    NonMinimalVarInt,
    /// The bytes do not describe a valid value.
    ParseFailed(ParseFailure),
}

/// What a spec parser yields: the model of the value and the number of bytes it used.
pub type SpecParse<V> = Result<(V, nat), DecodeError>;

/// `res`, returned by a decoder called at `pos`, is what the spec parser `expected` says: the
/// same error, or a value with that model ending `n` bytes after `pos`.
pub open spec fn decoded_as<T: View>(
    res: Result<(T, usize), DecodeError>,
    pos: int,
    expected: SpecParse<T::V>,
) -> bool {
    match expected {
        Ok((m, n)) => res matches Ok((v, end)) && v@ == m && end == pos + n,
        Err(e) => res == Err::<(T, usize), DecodeError>(e),
    }
}

// ----- Little-endian integers --------------------------------------------------------------------

pub open spec fn pow256(n: nat) -> nat
    decreases n,
{
    if n == 0 {
        1
    } else {
        256 * pow256((n - 1) as nat)
    }
}

/// The unsigned value of little-endian bytes.
pub open spec fn le_value(s: Seq<u8>) -> nat
    decreases s.len(),
{
    if s.len() == 0 {
        0
    } else {
        s[0] as nat + 256 * le_value(s.drop_first())
    }
}

/// The `n` low bytes of `v`, least significant first.
pub open spec fn le_bytes(v: nat, n: nat) -> Seq<u8>
    decreases n,
{
    if n == 0 {
        Seq::empty()
    } else {
        seq![(v % 256) as u8] + le_bytes(v / 256, (n - 1) as nat)
    }
}

pub proof fn lemma_pow256_values()
    ensures
        pow256(1) == 0x100,
        pow256(2) == 0x10000,
        pow256(4) == 0x1_0000_0000,
        pow256(8) == 0x1_0000_0000_0000_0000,
{
    reveal_with_fuel(pow256, 9);
}

pub proof fn lemma_pow256_mono(a: nat, b: nat)
    requires
        a <= b,
    ensures
        pow256(a) <= pow256(b),
    decreases b,
{
    if a < b {
        lemma_pow256_mono(a, (b - 1) as nat);
    }
}

pub proof fn lemma_le_value_bound(s: Seq<u8>)
    ensures
        le_value(s) < pow256(s.len()),
    decreases s.len(),
{
    if s.len() > 0 {
        lemma_le_value_bound(s.drop_first());
    }
}

pub proof fn lemma_le_bytes_len(v: nat, n: nat)
    ensures
        le_bytes(v, n).len() == n,
    decreases n,
{
    if n > 0 {
        lemma_le_bytes_len(v / 256, (n - 1) as nat);
    }
}

/// Writing `n` bytes and reading them back gives the value, when it fits.
pub proof fn lemma_le_roundtrip(v: nat, n: nat)
    requires
        v < pow256(n),
    ensures
        le_value(le_bytes(v, n)) == v,
        le_bytes(v, n).len() == n,
    decreases n,
{
    lemma_le_bytes_len(v, n);
    if n > 0 {
        assert(v / 256 < pow256((n - 1) as nat));
        lemma_le_roundtrip(v / 256, (n - 1) as nat);
        assert(le_bytes(v, n).drop_first() =~= le_bytes(v / 256, (n - 1) as nat));
    }
}

/// Reading bytes and writing the value back gives the bytes.
pub proof fn lemma_le_bytes_of_value(s: Seq<u8>)
    ensures
        le_bytes(le_value(s), s.len()) == s,
    decreases s.len(),
{
    if s.len() > 0 {
        lemma_le_bytes_of_value(s.drop_first());
        assert(le_bytes(le_value(s), s.len()) =~= s);
    }
}

/// Reads `n <= 8` bytes at `pos` as a little-endian unsigned integer.
pub fn read_le(data: &[u8], pos: usize, n: usize) -> (v: u64)
    requires
        n <= 8,
        pos + n <= data@.len(),
    ensures
        v as nat == le_value(data@.subrange(pos as int, pos + n)),
{
    let mut v: u64 = 0;
    let mut i: usize = n;
    let len = data.len();
    proof {
        lemma_pow256_values();
        assert(data@.subrange(pos + n, pos + n) =~= Seq::<u8>::empty());
    }
    while i > 0
        invariant
            i <= n <= 8,
            pos + n <= data@.len(),
            len == data@.len(),
            v as nat == le_value(data@.subrange(pos + i, pos + n)),
            pow256(8) == 0x1_0000_0000_0000_0000,
        decreases i,
    {
        i = i - 1;
        let ghost tail = data@.subrange(pos + i + 1, pos + n);
        proof {
            lemma_le_value_bound(tail);
            lemma_pow256_mono(tail.len(), 7);
            assert(data@.subrange(pos + i, pos + n).drop_first() =~= tail);
        }
        v = v * 256 + data[pos + i] as u64;
    }
    v
}

/// Appends the `n <= 8` low bytes of `v`, least significant first.
pub fn write_le(v: u64, n: usize, out: &mut Vec<u8>)
    requires
        n <= 8,
    ensures
        final(out)@ == old(out)@ + le_bytes(v as nat, n as nat),
{
    let mut cur: u64 = v;
    let mut i: usize = 0;
    while i < n
        invariant
            i <= n,
            out@ + le_bytes(cur as nat, (n - i) as nat) == old(out)@ + le_bytes(v as nat, n as nat),
        decreases n - i,
    {
        let ghost before = out@;
        out.push((cur % 256) as u8);
        proof {
            assert(le_bytes(cur as nat, (n - i) as nat) == seq![(cur % 256) as u8] + le_bytes(
                (cur / 256) as nat,
                (n - i - 1) as nat,
            ));
            assert(out@ + le_bytes((cur / 256) as nat, (n - i - 1) as nat) =~= before + le_bytes(
                cur as nat,
                (n - i) as nat,
            ));
        }
        cur = cur / 256;
        i = i + 1;
    }
    assert(out@ =~= out@ + le_bytes(cur as nat, 0));
}

// ----- Bytes and fixed-size fields ---------------------------------------------------------------

pub open spec fn parse_u8(s: Seq<u8>) -> SpecParse<u8> {
    if s.len() >= 1 {
        Ok((s[0], 1))
    } else {
        Err(DecodeError::UnexpectedEof)
    }
}

/// A field of exactly `n` bytes.
pub open spec fn parse_fixed(s: Seq<u8>, n: nat) -> SpecParse<Seq<u8>> {
    if s.len() >= n {
        Ok((s.take(n as int), n))
    } else {
        Err(DecodeError::UnexpectedEof)
    }
}

/// A little-endian `u64` field.
#[verifier::opaque]
pub open spec fn parse_u64_le(s: Seq<u8>) -> SpecParse<u64> {
    if s.len() >= 8 {
        Ok((le_value(s.take(8)) as u64, 8))
    } else {
        Err(DecodeError::UnexpectedEof)
    }
}

pub fn read_u8(data: &[u8], pos: usize) -> (res: Result<(u8, usize), DecodeError>)
    requires
        pos <= data@.len(),
    ensures
        decoded_as(res, pos as int, parse_u8(data@.skip(pos as int))),
        res matches Ok((_, end)) ==> pos <= end <= data@.len(),
{
    if pos < data.len() {
        Ok((data[pos], pos + 1))
    } else {
        Err(DecodeError::UnexpectedEof)
    }
}

pub fn read_u64_le(data: &[u8], pos: usize) -> (res: Result<(u64, usize), DecodeError>)
    requires
        pos <= data@.len(),
    ensures
        decoded_as(res, pos as int, parse_u64_le(data@.skip(pos as int))),
        res matches Ok((_, end)) ==> pos <= end <= data@.len(),
{
    reveal(parse_u64_le);
    if data.len() - pos >= 8 {
        let v = read_le(data, pos, 8);
        proof {
            assert(data@.skip(pos as int).take(8) =~= data@.subrange(pos as int, pos + 8));
        }
        Ok((v, pos + 8))
    } else {
        Err(DecodeError::UnexpectedEof)
    }
}

/// Copies `n` bytes starting at `pos`.
pub fn copy_bytes(data: &[u8], pos: usize, n: usize) -> (v: Vec<u8>)
    requires
        pos + n <= data@.len(),
    ensures
        v@ == data@.subrange(pos as int, pos + n),
{
    let mut v: Vec<u8> = Vec::new();
    let mut i: usize = 0;
    let len = data.len();
    while i < n
        invariant
            i <= n,
            len == data@.len(),
            pos + n <= data@.len(),
            v@ == data@.subrange(pos as int, pos + i),
        decreases n - i,
    {
        v.push(data[pos + i]);
        i = i + 1;
        assert(v@ =~= data@.subrange(pos as int, pos + i));
    }
    v
}

/// Reads a fixed field of `n` bytes into a vector.
pub fn read_fixed(data: &[u8], pos: usize, n: usize) -> (res: Result<(Vec<u8>, usize), DecodeError>)
    requires
        pos <= data@.len(),
    ensures
        decoded_as(res, pos as int, parse_fixed(data@.skip(pos as int), n as nat)),
        res matches Ok((_, end)) ==> pos <= end <= data@.len(),
{
    if data.len() - pos >= n {
        let v = copy_bytes(data, pos, n);
        assert(data@.skip(pos as int).take(n as int) =~= data@.subrange(pos as int, pos + n));
        Ok((v, pos + n))
    } else {
        Err(DecodeError::UnexpectedEof)
    }
}

/// Appends all of `src` to `out`.
pub fn append_bytes(out: &mut Vec<u8>, src: &[u8])
    ensures
        final(out)@ == old(out)@ + src@,
{
    let mut i: usize = 0;
    while i < src.len()
        invariant
            i <= src@.len(),
            out@ == old(out)@ + src@.take(i as int),
        decreases src@.len() - i,
    {
        out.push(src[i]);
        i = i + 1;
        assert(out@ =~= old(out)@ + src@.take(i as int));
    }
    assert(src@.take(src@.len() as int) =~= src@);
}

// ----- CompactSize VarInt ------------------------------------------------------------------------

/// Bitcoin's CompactSize encoding of `v`: one byte below `0xFD`, else a marker byte and the
/// shortest of 2, 4 or 8 little-endian bytes that holds it.
pub open spec fn compact_size_bytes(v: u64) -> Seq<u8> {
    if v < 0xFD {
        seq![v as u8]
    } else if v <= 0xFFFF {
        seq![0xFDu8] + le_bytes(v as nat, 2)
    } else if v <= 0xFFFF_FFFF {
        seq![0xFEu8] + le_bytes(v as nat, 4)
    } else {
        seq![0xFFu8] + le_bytes(v as nat, 8)
    }
}

/// Decoding of a CompactSize, rejecting any form longer than the value needs.
#[verifier::opaque]
pub open spec fn parse_compact_size(s: Seq<u8>) -> SpecParse<u64> {
    if s.len() < 1 {
        Err(DecodeError::UnexpectedEof)
    } else if s[0] < 0xFD {
        Ok((s[0] as u64, 1))
    } else if s[0] == 0xFD {
        if s.len() < 3 {
            Err(DecodeError::UnexpectedEof)
        } else if le_value(s.subrange(1, 3)) < 0xFD {
            Err(DecodeError::NonMinimalVarInt)
        } else {
            Ok((le_value(s.subrange(1, 3)) as u64, 3))
        }
    } else if s[0] == 0xFE {
        if s.len() < 5 {
            Err(DecodeError::UnexpectedEof)
        } else if le_value(s.subrange(1, 5)) < 0x10000 {
            Err(DecodeError::NonMinimalVarInt)
        } else {
            Ok((le_value(s.subrange(1, 5)) as u64, 5))
        }
    } else {
        if s.len() < 9 {
            Err(DecodeError::UnexpectedEof)
        } else if le_value(s.subrange(1, 9)) < 0x1_0000_0000 {
            Err(DecodeError::NonMinimalVarInt)
        } else {
            Ok((le_value(s.subrange(1, 9)) as u64, 9))
        }
    }
}

pub fn read_compact_size(data: &[u8], pos: usize) -> (res: Result<(u64, usize), DecodeError>)
    requires
        pos <= data@.len(),
    ensures
        decoded_as(res, pos as int, parse_compact_size(data@.skip(pos as int))),
        res matches Ok((_, end)) ==> pos <= end <= data@.len(),
{
    reveal(parse_compact_size);
    let ghost s = data@.skip(pos as int);
    if pos >= data.len() {
        return Err(DecodeError::UnexpectedEof);
    }
    let b = data[pos];
    let rest = data.len() - pos;
    if b < 0xFD {
        Ok((b as u64, pos + 1))
    } else if b == 0xFD {
        if rest < 3 {
            return Err(DecodeError::UnexpectedEof);
        }
        let v = read_le(data, pos + 1, 2);
        assert(s.subrange(1, 3) =~= data@.subrange(pos + 1, pos + 3));
        if v < 0xFD {
            Err(DecodeError::NonMinimalVarInt)
        } else {
            Ok((v, pos + 3))
        }
    } else if b == 0xFE {
        if rest < 5 {
            return Err(DecodeError::UnexpectedEof);
        }
        let v = read_le(data, pos + 1, 4);
        assert(s.subrange(1, 5) =~= data@.subrange(pos + 1, pos + 5));
        if v < 0x10000 {
            Err(DecodeError::NonMinimalVarInt)
        } else {
            Ok((v, pos + 5))
        }
    } else {
        if rest < 9 {
            return Err(DecodeError::UnexpectedEof);
        }
        let v = read_le(data, pos + 1, 8);
        assert(s.subrange(1, 9) =~= data@.subrange(pos + 1, pos + 9));
        if v < 0x1_0000_0000 {
            Err(DecodeError::NonMinimalVarInt)
        } else {
            Ok((v, pos + 9))
        }
    }
}

pub fn write_compact_size(v: u64, out: &mut Vec<u8>) -> (n: usize)
    ensures
        final(out)@ == old(out)@ + compact_size_bytes(v),
        n == compact_size_bytes(v).len(),
{
    proof {
        lemma_le_bytes_len(v as nat, 2);
        lemma_le_bytes_len(v as nat, 4);
        lemma_le_bytes_len(v as nat, 8);
    }
    if v < 0xFD {
        out.push(v as u8);
        1
    } else if v <= 0xFFFF {
        out.push(0xFD);
        write_le(v, 2, out);
        3
    } else if v <= 0xFFFF_FFFF {
        out.push(0xFE);
        write_le(v, 4, out);
        5
    } else {
        out.push(0xFF);
        write_le(v, 8, out);
        9
    }
}

/// A CompactSize read uses at least one byte and no more than there are.
pub proof fn lemma_compact_size_len(s: Seq<u8>)
    ensures
        parse_compact_size(s) matches Ok((_, n)) ==> 1 <= n <= s.len(),
{
    reveal(parse_compact_size);
}

/// A CompactSize written and read back gives the value and its length.
pub proof fn lemma_compact_size_roundtrip(v: u64, rest: Seq<u8>)
    ensures
        parse_compact_size(compact_size_bytes(v) + rest) == Ok::<(u64, nat), DecodeError>(
            (v, compact_size_bytes(v).len()),
        ),
{
    reveal(parse_compact_size);
    lemma_pow256_values();
    let s = compact_size_bytes(v) + rest;
    if v < 0xFD {
    } else if v <= 0xFFFF {
        lemma_le_roundtrip(v as nat, 2);
        assert(s.subrange(1, 3) =~= le_bytes(v as nat, 2));
    } else if v <= 0xFFFF_FFFF {
        lemma_le_roundtrip(v as nat, 4);
        assert(s.subrange(1, 5) =~= le_bytes(v as nat, 4));
    } else {
        lemma_le_roundtrip(v as nat, 8);
        assert(s.subrange(1, 9) =~= le_bytes(v as nat, 8));
    }
}

/// A successful CompactSize read used exactly the canonical bytes of its value.
pub proof fn lemma_compact_size_canonical(s: Seq<u8>)
    requires
        parse_compact_size(s) is Ok,
    ensures
        s.take(parse_compact_size(s)->Ok_0.1 as int) == compact_size_bytes(
            parse_compact_size(s)->Ok_0.0,
        ),
{
    reveal(parse_compact_size);
    lemma_pow256_values();
    if s[0] < 0xFD {
        assert(s.take(1) =~= seq![s[0]]);
    } else if s[0] == 0xFD {
        let b = s.subrange(1, 3);
        lemma_le_value_bound(b);
        lemma_le_bytes_of_value(b);
        assert(s.take(3) =~= seq![0xFDu8] + b);
    } else if s[0] == 0xFE {
        let b = s.subrange(1, 5);
        lemma_le_value_bound(b);
        lemma_le_bytes_of_value(b);
        assert(s.take(5) =~= seq![0xFEu8] + b);
    } else {
        let b = s.subrange(1, 9);
        lemma_le_value_bound(b);
        lemma_le_bytes_of_value(b);
        assert(s.take(9) =~= seq![0xFFu8] + b);
    }
}

// ----- Length-prefixed byte vectors --------------------------------------------------------------

/// A byte vector on the wire: its CompactSize length, then the bytes (as for scripts).
pub open spec fn byte_vec_bytes(v: Seq<u8>) -> Seq<u8> {
    compact_size_bytes(v.len() as u64) + v
}

pub open spec fn parse_byte_vec(s: Seq<u8>) -> SpecParse<Seq<u8>> {
    match parse_compact_size(s) {
        Err(e) => Err(e),
        Ok((len, n)) => if s.len() - n >= len {
            Ok((s.subrange(n as int, n + len), (n + len) as nat))
        } else {
            Err(DecodeError::UnexpectedEof)
        },
    }
}

pub fn read_byte_vec(data: &[u8], pos: usize) -> (res: Result<(Vec<u8>, usize), DecodeError>)
    requires
        pos <= data@.len(),
    ensures
        decoded_as(res, pos as int, parse_byte_vec(data@.skip(pos as int))),
        res matches Ok((_, end)) ==> pos <= end <= data@.len(),
{
    let (len, p) = read_compact_size(data, pos)?;
    if (data.len() - p) as u64 >= len {
        let len = len as usize;
        let v = copy_bytes(data, p, len);
        assert(data@.skip(pos as int).subrange(p - pos, p - pos + len) =~= data@.subrange(
            p as int,
            p + len,
        ));
        Ok((v, p + len))
    } else {
        Err(DecodeError::UnexpectedEof)
    }
}

pub fn write_byte_vec(v: &[u8], out: &mut Vec<u8>) -> (n: usize)
    ensures
        final(out)@ == old(out)@ + byte_vec_bytes(v@),
        n == byte_vec_bytes(v@).len(),
{
    let start = out.len();
    write_compact_size(v.len() as u64, out);
    append_bytes(out, v);
    assert(out@ =~= old(out)@ + byte_vec_bytes(v@));
    out.len() - start
}

/// A byte vector written and read back gives the bytes and its length.
pub proof fn lemma_byte_vec_roundtrip(v: Seq<u8>, rest: Seq<u8>)
    requires
        v.len() <= u64::MAX,
    ensures
        parse_byte_vec(byte_vec_bytes(v) + rest) == Ok::<(Seq<u8>, nat), DecodeError>(
            (v, byte_vec_bytes(v).len()),
        ),
{
    let c = compact_size_bytes(v.len() as u64);
    lemma_compact_size_roundtrip(v.len() as u64, v + rest);
    assert(byte_vec_bytes(v) + rest =~= c + (v + rest));
    let s = byte_vec_bytes(v) + rest;
    assert(s.subrange(c.len() as int, (c.len() + v.len()) as int) =~= v);
}

/// A successful byte-vector read used exactly the canonical encoding of its bytes.
pub proof fn lemma_byte_vec_canonical(s: Seq<u8>)
    requires
        parse_byte_vec(s) is Ok,
    ensures
        s.take(parse_byte_vec(s)->Ok_0.1 as int) == byte_vec_bytes(parse_byte_vec(s)->Ok_0.0),
{
    lemma_compact_size_canonical(s);
    let (len, n) = parse_compact_size(s)->Ok_0;
    let (v, m) = parse_byte_vec(s)->Ok_0;
    assert(s.take(m as int) =~= s.take(n as int) + v);
}

} // verus!
