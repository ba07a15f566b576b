//! The Litecoin Core varint used for MWEB amounts, fees, peg-ins, peg-outs and lock heights
//! (`WriteVarInt` / `ReadVarInt` in litecoind's `serialize.h`).
//!
//! A value below 128 is one byte. Otherwise the value `v` is written as the encoding of
//! `v / 128 - 1` with the high bit set on each of its bytes, followed by the byte `v % 128`.
//! Subtracting one at each level makes every value have exactly one encoding.

use vstd::prelude::*;
use crate::encoding::{decoded_as, DecodeError, ParseFailure, SpecParse};

verus! {

/// The varint bytes of `v`, the last of which gets `mark` (0, or 128 for a continuation) added.
pub open spec fn mw_varint_digits(v: nat, mark: nat) -> Seq<u8>
    decreases v,
{
    if v < 128 {
        seq![(v + mark) as u8]
    } else {
        mw_varint_digits((v / 128 - 1) as nat, 128) + seq![(v % 128 + mark) as u8]
    }
}

/// The varint encoding of `v`.
pub open spec fn mw_varint_bytes(v: nat) -> Seq<u8> {
    mw_varint_digits(v, 0)
}

/// The value a reader accumulates over `s`: for each byte, shift in its low seven bits and add
/// one when its high bit is set.
pub open spec fn mw_varint_acc(s: Seq<u8>) -> nat
    decreases s.len(),
{
    if s.len() == 0 {
        0
    } else {
        mw_varint_acc(s.drop_last()) * 128 + (s.last() % 128) as nat + if s.last() >= 128 {
            1nat
        } else {
            0nat
        }
    }
}

/// The bytes a reader takes: up to and including the first byte below 128, or all of `s`.
pub open spec fn mw_varint_span(s: Seq<u8>) -> nat
    decreases s.len(),
{
    if s.len() == 0 {
        0
    } else if s[0] < 128 {
        1
    } else {
        1 + mw_varint_span(s.drop_first())
    }
}

/// `s` holds a byte below 128, which ends a varint.
pub open spec fn mw_varint_terminated(s: Seq<u8>) -> bool {
    mw_varint_span(s) > 0 && s[mw_varint_span(s) - 1] < 128
}

/// Decoding of a varint whose value may not exceed `max`: overflow when the value of the bytes
/// read exceeds `max`, else end of input when no byte ends the varint.
#[verifier::opaque]
pub open spec fn parse_mw_varint(s: Seq<u8>, max: nat) -> SpecParse<u64> {
    let n = mw_varint_span(s);
    let v = mw_varint_acc(s.take(n as int));
    if v > max {
        Err(DecodeError::ParseFailed(ParseFailure::VarintOverflow))
    } else if !mw_varint_terminated(s) {
        Err(DecodeError::UnexpectedEof)
    } else {
        Ok((v as u64, n))
    }
}

/// An MWEB amount: a varint of at most `i64::MAX`.
pub open spec fn parse_amount(s: Seq<u8>) -> SpecParse<i64> {
    match parse_mw_varint(s, i64::MAX as nat) {
        Ok((v, n)) => Ok((v as i64, n)),
        Err(e) => Err(e),
    }
}

/// What the amount writer emits: the varint of a non-negative amount, and for a negative one a
/// single byte with the low seven bits of its two's-complement form.
pub open spec fn amount_bytes(a: i64) -> Seq<u8> {
    if a < 0 {
        seq![((a as u64) % 128) as u8]
    } else {
        mw_varint_bytes(a as nat)
    }
}

// ----- Facts about the encoding ------------------------------------------------------------------

proof fn lemma_span_le_len(s: Seq<u8>)
    ensures
        mw_varint_span(s) <= s.len(),
    decreases s.len(),
{
    if s.len() > 0 && s[0] >= 128 {
        lemma_span_le_len(s.drop_first());
    }
}

/// When the first `j` bytes continue, the span reaches past them.
proof fn lemma_span_after_continuations(s: Seq<u8>, j: nat)
    requires
        j <= s.len(),
        forall|k: int| 0 <= k < j ==> s[k] >= 128,
    ensures
        j < s.len() ==> mw_varint_span(s) >= j + 1,
        j < s.len() && s[j as int] < 128 ==> mw_varint_span(s) == j + 1 && mw_varint_terminated(s),
        j == s.len() ==> mw_varint_span(s) == s.len() && !mw_varint_terminated(s),
    decreases j,
{
    lemma_span_le_len(s);
    if j > 0 {
        let t = s.drop_first();
        assert forall|k: int| 0 <= k < j - 1 implies t[k] >= 128 by {
            assert(t[k] == s[k + 1]);
        }
        lemma_span_after_continuations(t, (j - 1) as nat);
        if j < s.len() && s[j as int] < 128 {
            assert(t[j - 1] == s[j as int]);
        }
    } else if s.len() == 0 {
    }
}

/// The accumulated value never shrinks as more bytes are read.
proof fn lemma_acc_monotone(s: Seq<u8>, a: nat, b: nat)
    requires
        a <= b <= s.len(),
    ensures
        mw_varint_acc(s.take(a as int)) <= mw_varint_acc(s.take(b as int)),
    decreases b,
{
    if a < b {
        lemma_acc_monotone(s, a, (b - 1) as nat);
        assert(s.take(b as int).drop_last() =~= s.take(b - 1));
    }
}

proof fn lemma_acc_step(s: Seq<u8>, j: nat)
    requires
        j < s.len(),
    ensures
        mw_varint_acc(s.take(j + 1int)) == mw_varint_acc(s.take(j as int)) * 128 + (s[j as int]
            % 128) as nat + if s[j as int] >= 128 {
            1nat
        } else {
            0nat
        },
{
    assert(s.take(j + 1int).drop_last() =~= s.take(j as int));
}

/// The digits of `v`: all bytes but the last continue, the last carries `mark`, and reading them
/// gives `v` plus one for a continued last byte.
proof fn lemma_digits_shape(v: nat, mark: nat)
    requires
        mark == 0 || mark == 128,
    ensures
        mw_varint_digits(v, mark).len() >= 1,
        forall|k: int|
            0 <= k < mw_varint_digits(v, mark).len() - 1 ==> #[trigger] mw_varint_digits(v, mark)[k]
                >= 128,
        (mw_varint_digits(v, mark).last() >= 128) == (mark == 128),
        mw_varint_acc(mw_varint_digits(v, mark)) == v + mark / 128,
    decreases v,
{
    let d = mw_varint_digits(v, mark);
    if v < 128 {
        assert(d.drop_last() =~= Seq::<u8>::empty());
        assert(mw_varint_acc(d.drop_last()) == 0);
        assert(d.last() == (v + mark) as u8);
        assert((v + mark) % 128 == v);
    } else {
        let w = (v / 128 - 1) as nat;
        lemma_digits_shape(w, 128);
        let p = mw_varint_digits(w, 128);
        assert(d.drop_last() =~= p);
        vstd::arithmetic::div_mod::lemma_fundamental_div_mod(v as int, 128);
        assert(d.last() == (v % 128 + mark) as u8);
        assert((v % 128 + mark) % 128 == v % 128);
        assert(mw_varint_acc(p) == w + 1);
        assert(mw_varint_acc(d) == mw_varint_acc(p) * 128 + v % 128 + mark / 128);
        assert((w + 1) * 128 + v % 128 == v);
        assert forall|k: int| 0 <= k < d.len() - 1 implies #[trigger] d[k] >= 128 by {
            assert(d[k] == p[k]);
        }
    }
}

/// Bytes that continue up to a last byte carrying `mark` are the digits of their value.
proof fn lemma_digits_of_acc(t: Seq<u8>, mark: nat)
    requires
        mark == 0 || mark == 128,
        t.len() >= 1,
        forall|k: int| 0 <= k < t.len() - 1 ==> t[k] >= 128,
        (t.last() >= 128) == (mark == 128),
    ensures
        mw_varint_acc(t) >= mark / 128,
        mw_varint_digits((mw_varint_acc(t) - mark / 128) as nat, mark) == t,
    decreases t.len(),
{
    let c = mark / 128;
    let r = (t.last() % 128) as nat;
    if t.len() == 1 {
        assert(t.drop_last() =~= Seq::<u8>::empty());
        assert(mw_varint_acc(t.drop_last()) == 0);
        assert(mw_varint_acc(t) == r + c);
        assert(r + mark == t.last());
        assert(mw_varint_digits(r, mark) =~= t);
    } else {
        let p = t.drop_last();
        assert forall|k: int| 0 <= k < p.len() - 1 implies p[k] >= 128 by {
            assert(p[k] == t[k]);
        }
        assert(p.last() == t[t.len() - 2]);
        lemma_digits_of_acc(p, 128);
        let a = mw_varint_acc(p);
        let v = (mw_varint_acc(t) - c) as nat;
        assert(v == a * 128 + r);
        assert(v / 128 == a && v % 128 == r) by {
            vstd::arithmetic::div_mod::lemma_fundamental_div_mod_converse(
                v as int,
                128,
                a as int,
                r as int,
            );
        }
        assert(mw_varint_digits(v, mark) =~= t);
    }
}

// ----- Laws --------------------------------------------------------------------------------------

/// Reading the varint of `v` back gives `v` and its length, whatever follows it.
pub proof fn lemma_mw_varint_roundtrip(v: nat, max: nat, rest: Seq<u8>)
    requires
        v <= max,
    ensures
        parse_mw_varint(mw_varint_bytes(v) + rest, max) == Ok::<(u64, nat), DecodeError>(
            (v as u64, mw_varint_bytes(v).len()),
        ),
{
    reveal(parse_mw_varint);
    let d = mw_varint_bytes(v);
    let s = d + rest;
    lemma_digits_shape(v, 0);
    let j = (d.len() - 1) as nat;
    assert forall|k: int| 0 <= k < j implies s[k] >= 128 by {
        assert(s[k] == d[k]);
    }
    assert(s[j as int] == d.last());
    lemma_span_after_continuations(s, j);
    assert(s.take(d.len() as int) =~= d);
}

/// A varint that was read is the encoding of its value: there is one encoding per value.
pub proof fn lemma_mw_varint_canonical(s: Seq<u8>, max: nat)
    requires
        max <= u64::MAX,
        parse_mw_varint(s, max) is Ok,
    ensures
        s.take(parse_mw_varint(s, max)->Ok_0.1 as int) == mw_varint_bytes(
            parse_mw_varint(s, max)->Ok_0.0 as nat,
        ),
{
    reveal(parse_mw_varint);
    let n = mw_varint_span(s);
    let t = s.take(n as int);
    lemma_span_le_len(s);
    assert forall|k: int| 0 <= k < t.len() - 1 implies t[k] >= 128 by {
        if t[k] < 128 {
            first_short_byte_ends_span(s, k as nat);
        }
    }
    assert(t.last() == s[n - 1]);
    lemma_digits_of_acc(t, 0);
}

/// The span ends at or before any byte below 128.
proof fn first_short_byte_ends_span(s: Seq<u8>, k: nat)
    requires
        k < s.len(),
        s[k as int] < 128,
    ensures
        mw_varint_span(s) <= k + 1,
    decreases k,
{
    if k > 0 && s[0] >= 128 {
        assert(s.drop_first()[k - 1] == s[k as int]);
        first_short_byte_ends_span(s.drop_first(), (k - 1) as nat);
    }
}

/// An amount written and read back is the same amount, for every non-negative amount.
pub proof fn lemma_amount_roundtrip(a: i64, rest: Seq<u8>)
    requires
        a >= 0,
    ensures
        parse_amount(amount_bytes(a) + rest) == Ok::<(i64, nat), DecodeError>(
            (a, amount_bytes(a).len()),
        ),
{
    lemma_mw_varint_roundtrip(a as nat, i64::MAX as nat, rest);
}

// ----- Readers and writers -----------------------------------------------------------------------

/// Reads a varint at `pos` whose value may not exceed `max`, rejecting overflow the way
/// Litecoin Core does: before shifting, and when adding the continuation one.
pub fn read_mw_varint(data: &[u8], pos: usize, max: u64) -> (res: Result<(u64, usize), DecodeError>)
    requires
        pos <= data@.len(),
        max % 128 == 127,
    ensures
        decoded_as(res, pos as int, parse_mw_varint(data@.skip(pos as int), max as nat)),
        res matches Ok((_, end)) ==> pos <= end <= data@.len(),
{
    reveal(parse_mw_varint);
    let ghost s = data@.skip(pos as int);
    let len = data.len();
    let mut n: u64 = 0;
    let mut i: usize = pos;
    assert(s.take(0) =~= Seq::<u8>::empty());
    loop
        invariant
            pos <= i <= len,
            len == data@.len(),
            s == data@.skip(pos as int),
            forall|k: int| 0 <= k < i - pos ==> s[k] >= 128,
            n as nat == mw_varint_acc(s.take(i - pos)),
            n <= max,
            max % 128 == 127,
        decreases len - i,
    {
        reveal(parse_mw_varint);
        let ghost j: nat = (i - pos) as nat;
        if i >= len {
            proof {
                lemma_span_after_continuations(s, j);
                assert(s.take(s.len() as int) =~= s.take(j as int));
            }
            return Err(DecodeError::UnexpectedEof);
        }
        let b = data[i];
        assert(s[j as int] == b);
        proof {
            lemma_span_after_continuations(s, j);
            lemma_span_le_len(s);
            lemma_acc_step(s, j);
        }
        if n > max / 128 {
            proof {
                lemma_acc_monotone(s, j + 1, mw_varint_span(s));
            }
            return Err(DecodeError::ParseFailed(ParseFailure::VarintOverflow));
        }
        let m: u64 = n * 128 + (b % 128) as u64;
        if b >= 128 {
            if m >= max {
                proof {
                    lemma_acc_monotone(s, j + 1, mw_varint_span(s));
                }
                return Err(DecodeError::ParseFailed(ParseFailure::VarintOverflow));
            }
            n = m + 1;
            i = i + 1;
        } else {
            return Ok((m, i + 1));
        }
    }
}

/// Appends the varint of `value` and returns its length.
pub fn write_mw_varint(value: u64, out: &mut Vec<u8>) -> (len: usize)
    ensures
        final(out)@ == old(out)@ + mw_varint_bytes(value as nat),
        len == mw_varint_bytes(value as nat).len(),
{
    // Digits come out least significant first; they are written in reverse.
    let mut tmp: Vec<u8> = Vec::new();
    let mut n: u64 = value;
    loop
        invariant_except_break
            mw_varint_bytes(value as nat) == mw_varint_digits(
                n as nat,
                if tmp@.len() == 0 {
                    0nat
                } else {
                    128nat
                },
            ) + tmp@.reverse(),
        ensures
            mw_varint_bytes(value as nat) == tmp@.reverse(),
        decreases n,
    {
        let mark: u8 = if tmp.len() != 0 {
            0x80
        } else {
            0x00
        };
        let ghost before = tmp@;
        if n <= 0x7f {
            let byte: u8 = (n as u8) + mark;
            tmp.push(byte);
            assert(tmp@.reverse() =~= seq![byte] + before.reverse());
            break;
        }
        let byte: u8 = ((n % 128) as u8) + mark;
        tmp.push(byte);
        assert(tmp@.reverse() =~= seq![byte] + before.reverse());
        n = n / 128 - 1;
    }
    let len = tmp.len();
    let mut i: usize = len;
    assert(tmp@.reverse().take(0) =~= Seq::<u8>::empty());
    while i > 0
        invariant
            i <= len == tmp@.len(),
            out@ == old(out)@ + tmp@.reverse().take(len - i),
        decreases i,
    {
        i = i - 1;
        out.push(tmp[i]);
        assert(tmp@.reverse().take(len - i) =~= tmp@.reverse().take(len - i - 1).push(tmp@[i as int]));
    }
    assert(tmp@.reverse().take(len as int) =~= tmp@.reverse());
    assert(mw_varint_bytes(value as nat) =~= tmp@.reverse());
    len
}

/// Reads an MWEB amount (a varint of at most `i64::MAX`).
pub fn read_amount(data: &[u8], pos: usize) -> (res: Result<(i64, usize), DecodeError>)
    requires
        pos <= data@.len(),
    ensures
        decoded_as(res, pos as int, parse_amount(data@.skip(pos as int))),
        res matches Ok((_, end)) ==> pos <= end <= data@.len(),
{
    let (v, p) = read_mw_varint(data, pos, i64::MAX as u64)?;
    Ok((v as i64, p))
}

/// Appends an MWEB amount and returns the number of bytes written.
pub fn write_amount(amount: i64, out: &mut Vec<u8>) -> (len: usize)
    ensures
        final(out)@ == old(out)@ + amount_bytes(amount),
        len == amount_bytes(amount).len(),
{
    if amount < 0 {
        out.push(((amount as u64) % 128) as u8);
        1
    } else {
        write_mw_varint(amount as u64, out)
    }
}

/// Reads a varint as a `u64` (the inline length and height fields of MWEB headers).
pub fn read_compact_varint(data: &[u8], pos: usize) -> (res: Result<(u64, usize), DecodeError>)
    requires
        pos <= data@.len(),
    ensures
        decoded_as(res, pos as int, parse_mw_varint(data@.skip(pos as int), u64::MAX as nat)),
        res matches Ok((_, end)) ==> pos <= end <= data@.len(),
{
    read_mw_varint(data, pos, u64::MAX)
}

/// Appends the varint of a `u64` and returns the number of bytes written.
pub fn write_compact_varint(value: u64, out: &mut Vec<u8>) -> (len: usize)
    ensures
        final(out)@ == old(out)@ + mw_varint_bytes(value as nat),
        len == mw_varint_bytes(value as nat).len(),
{
    write_mw_varint(value, out)
}

} // verus!
