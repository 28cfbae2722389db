//! Typed big-endian writes and length-prefixed frames, appended to a buffer.

use vstd::prelude::*;
use vstd::utf8::{decode_utf8, encode_utf8, valid_utf8};

use crate::read::{be_value, spec_i64, spec_string};
use crate::varint::{encode_varint, lemma_varint_round_trip, write_varint};

verus! {

/// The last `n` bytes of `v` in big-endian order.
pub open spec fn be_bytes(v: nat, n: nat) -> Seq<u8>
    decreases n,
{
    if n == 0 {
        Seq::empty()
    } else {
        be_bytes(v / 256, (n - 1) as nat).push((v % 256) as u8)
    }
}

/// The eight bytes of an `i64`.
pub open spec fn encode_i64(v: i64) -> Seq<u8> {
    be_bytes((v as u64) as nat, 8)
}

/// A string field: its UTF-8 byte length as a varint, then the bytes.
pub open spec fn encode_string(s: Seq<char>) -> Seq<u8> {
    encode_varint(encode_utf8(s).len() as i32) + encode_utf8(s)
}

/// A frame: the byte length of `payload` as a varint, then `payload`.
pub open spec fn encode_frame(payload: Seq<u8>) -> Seq<u8> {
    encode_varint(payload.len() as i32) + payload
}

/// Appends the low `width` bytes of `value`, most significant first.
pub fn write_be(out: &mut Vec<u8>, value: u64, width: usize)
    requires
        width <= 8,
    ensures
        final(out)@ == old(out)@ + be_bytes(value as nat, width as nat),
    decreases width,
{
    if width > 0 {
        write_be(out, value / 256, width - 1);
        out.push((value % 256) as u8);
        assert(final(out)@ =~= old(out)@ + be_bytes(value as nat, width as nat));
    } else {
        assert(final(out)@ =~= old(out)@ + be_bytes(value as nat, width as nat));
    }
}

/// Appends one byte.
pub fn write_u8(out: &mut Vec<u8>, value: u8)
    ensures
        final(out)@ == old(out)@.push(value),
{
    write_be(out, value as u64, 1);
    assert(be_bytes(value as nat / 256, 0) =~= Seq::<u8>::empty());
    assert((value as nat) % 256 == value as nat);
    assert(be_bytes(value as nat, 1) =~= seq![value]);
}

/// Appends a flag as one byte, 1 for `true` and 0 for `false`.
pub fn write_bool(out: &mut Vec<u8>, value: bool)
    ensures
        final(out)@ == old(out)@.push(if value { 1u8 } else { 0u8 }),
{
    write_u8(out, if value { 1 } else { 0 });
}

/// Appends a big-endian `u16`.
pub fn write_u16(out: &mut Vec<u8>, value: u16)
    ensures
        final(out)@ == old(out)@ + be_bytes(value as nat, 2),
{
    write_be(out, value as u64, 2);
}

/// Appends a big-endian `i64`.
pub fn write_i64(out: &mut Vec<u8>, value: i64)
    ensures
        final(out)@ == old(out)@ + encode_i64(value),
{
    write_be(out, #[verifier::truncate] (value as u64), 8);
}

/// Appends the bytes of `bytes`.
pub fn write_bytes(out: &mut Vec<u8>, bytes: &[u8])
    ensures
        final(out)@ == old(out)@ + bytes@,
{
    let mut i: usize = 0;
    while i < bytes.len()
        invariant
            i <= bytes@.len(),
            out@ == old(out)@ + bytes@.take(i as int),
        decreases bytes@.len() - i,
    {
        out.push(bytes[i]);
        i = i + 1;
        assert(out@ =~= old(out)@ + bytes@.take(i as int));
    }
    assert(bytes@.take(i as int) =~= bytes@);
}

/// Appends a string field: its byte length as a varint, then its UTF-8 bytes.
pub fn write_string(out: &mut Vec<u8>, value: &str)
    requires
        encode_utf8(value@).len() <= i32::MAX,
    ensures
        final(out)@ == old(out)@ + encode_string(value@),
{
    let bytes = value.as_bytes();
    write_varint(out, bytes.len() as i32);
    write_bytes(out, bytes);
    assert(final(out)@ =~= old(out)@ + encode_string(value@));
}

/// Appends a frame around `payload`: its length as a varint, then the bytes.
pub fn write_frame(out: &mut Vec<u8>, payload: &[u8])
    requires
        payload@.len() <= i32::MAX,
    ensures
        final(out)@ == old(out)@ + encode_frame(payload@),
{
    write_varint(out, payload.len() as i32);
    write_bytes(out, payload);
    assert(final(out)@ =~= old(out)@ + encode_frame(payload@));
}

pub proof fn lemma_be_round_trip(v: nat, n: nat)
    requires
        v < vstd::arithmetic::power::pow(256, n),
    ensures
        be_bytes(v, n).len() == n,
        be_value(be_bytes(v, n)) == v,
    decreases n,
{
    reveal(vstd::arithmetic::power::pow);
    if n > 0 {
        let p = vstd::arithmetic::power::pow(256, (n - 1) as nat);
        assert(v / 256 < p) by (nonlinear_arith)
            requires
                v < 256 * p,
        ;
        lemma_be_round_trip(v / 256, (n - 1) as nat);
        let b = be_bytes(v, n);
        assert(b.drop_last() =~= be_bytes(v / 256, (n - 1) as nat));
    }
}

/// An `i64` reads back as itself, whatever follows it.
pub proof fn lemma_i64_round_trip(v: i64, tail: Seq<u8>)
    ensures
        encode_i64(v).len() == 8,
        spec_i64(encode_i64(v) + tail) == v,
{
    let u = v as u64;
    assert(vstd::arithmetic::power::pow(256, 8) == 0x1_0000_0000_0000_0000) by {
        reveal_with_fuel(vstd::arithmetic::power::pow, 9);
    }
    lemma_be_round_trip(u as nat, 8);
    assert((encode_i64(v) + tail).take(8) =~= encode_i64(v));
    assert(((u as nat) as u64) as i64 == v) by {
        assert((u as u64) as i64 == v) by (bit_vector)
            requires
                u == v as u64,
        ;
    }
}

/// A string field reads back as the same characters, whatever follows it,
/// when its byte length is within the reader's bound.
pub proof fn lemma_string_round_trip(s: Seq<char>, max: nat, tail: Seq<u8>)
    requires
        encode_utf8(s).len() <= max,
        encode_utf8(s).len() <= i32::MAX,
    ensures
        spec_string(encode_string(s) + tail, max) == Some((s, encode_string(s).len())),
{
    broadcast use vstd::utf8::encode_utf8_valid_utf8, vstd::utf8::encode_utf8_decode_utf8;

    let b = encode_utf8(s);
    let len = b.len() as i32;
    lemma_varint_round_trip(len, b + tail);
    let whole = encode_string(s) + tail;
    assert(whole =~= encode_varint(len) + (b + tail));
    let n = encode_varint(len).len();
    assert(whole.skip(n as int).take(len as int) =~= b);
}

/// Reading a string whose declared length exceeds the bound fails, whatever
/// bytes follow the length.
pub proof fn lemma_string_too_long(len: i32, max: nat, tail: Seq<u8>)
    requires
        len > max,
    ensures
        spec_string(encode_varint(len) + tail, max) is None,
{
    lemma_varint_round_trip(len, tail);
}

/// Writing back the value of some bytes, at their width, gives those bytes.
pub proof fn lemma_be_bytes_of_value(s: Seq<u8>)
    ensures
        be_bytes(be_value(s), s.len()) == s,
    decreases s.len(),
{
    if s.len() > 0 {
        let d = s.drop_last();
        lemma_be_bytes_of_value(d);
        let v = be_value(s);
        assert(v / 256 == be_value(d) && v % 256 == s.last() as nat) by (nonlinear_arith)
            requires
                v == be_value(d) * 256 + s.last() as nat,
                s.last() < 256,
        ;
        assert(be_bytes(v, s.len()) =~= s);
    }
}

/// The eight bytes of a ping read as an `i64` and written back are the same
/// bytes.
pub proof fn lemma_i64_bytes_echo(s: Seq<u8>)
    requires
        s.len() == 8,
    ensures
        encode_i64(spec_i64(s)) == s,
{
    lemma_be_bytes_of_value(s);
    crate::read::lemma_be_value_bound(s);
    assert(vstd::arithmetic::power::pow(256, 8) == 0x1_0000_0000_0000_0000) by {
        reveal_with_fuel(vstd::arithmetic::power::pow, 9);
    }
    assert(s.take(8) =~= s);
    let u = be_value(s) as u64;
    assert(u as nat == be_value(s));
    assert((u as i64) as u64 == u) by (bit_vector);
}

} // verus!
