//! A cursor over the payload of one frame, with typed big-endian reads.

use vstd::prelude::*;
use vstd::utf8::{decode_utf8, valid_utf8};

use crate::error::ProtocolError;
use crate::varint::{spec_varint, scan_varint, VARINT_MAX_BYTES};

verus! {

/// The big-endian value of `s`.
pub open spec fn be_value(s: Seq<u8>) -> nat
    decreases s.len(),
{
    if s.len() == 0 {
        0
    } else {
        be_value(s.drop_last()) * 256 + s.last() as nat
    }
}

/// The `i64` held by the first eight bytes of `s`.
pub open spec fn spec_i64(s: Seq<u8>) -> i64 {
    (be_value(s.take(8)) as u64) as i64
}

/// The length-prefixed UTF-8 string at the front of `s`, with its declared
/// length at most `max` bytes: its characters and the number of bytes it spans.
pub open spec fn spec_string(s: Seq<u8>, max: nat) -> Option<(Seq<char>, nat)> {
    match spec_varint(s) {
        Some((len, n)) => {
            let body = s.skip(n as int).take(len as int);
            if 0 <= len <= max && n + len <= s.len() && valid_utf8(body) {
                Some((decode_utf8(body), n + len as nat))
            } else {
                None
            }
        },
        None => None,
    }
}

pub proof fn lemma_be_value_bound(s: Seq<u8>)
    ensures
        be_value(s) < vstd::arithmetic::power::pow(256, s.len()),
    decreases s.len(),
{
    reveal(vstd::arithmetic::power::pow);
    if s.len() > 0 {
        lemma_be_value_bound(s.drop_last());
        let p = vstd::arithmetic::power::pow(256, (s.len() - 1) as nat);
        let b = be_value(s.drop_last());
        assert(b * 256 + (s.last() as nat) < 256 * p) by (nonlinear_arith)
            requires
                b < p,
                s.last() < 256,
        ;
    }
}

/// Relies on `String::from_utf8`, which takes the bytes as a string exactly
/// when they are valid UTF-8.
#[verifier::external_body]
fn string_from_utf8(bytes: Vec<u8>) -> (r: Option<String>)
    ensures
        r is Some <==> valid_utf8(bytes@),
        r matches Some(s) ==> s@ == decode_utf8(bytes@),
{
    String::from_utf8(bytes).ok()
}

/// The payload of one frame and how far it has been read. Reads only move
/// forward.
#[derive(Debug)]
pub struct Slice {
    buf: Vec<u8>,
    pos: usize,
}

impl View for Slice {
    type V = Seq<u8>;

    /// The bytes not read yet.
    closed spec fn view(&self) -> Seq<u8> {
        self.buf@.skip(self.pos as int)
    }
}

impl Slice {
    pub closed spec fn wf(&self) -> bool {
        self.pos <= self.buf@.len() <= usize::MAX
    }

    /// A cursor at the start of `buf`.
    pub fn new(buf: Box<[u8]>) -> (r: Slice)
        ensures
            r.wf(),
            r@ == buf@,
    {
        Slice::from_vec(buf.into_vec())
    }

    /// A cursor at the start of `buf`.
    pub fn from_vec(buf: Vec<u8>) -> (r: Slice)
        ensures
            r.wf(),
            r@ == buf@,
    {
        // Asking the length brings in that it fits a `usize`.
        let _len = buf.len();
        let r = Slice { buf, pos: 0 };
        assert(r.buf@.skip(0) =~= r.buf@);
        r
    }

    /// The number of bytes not read yet.
    pub fn remaining(&self) -> (r: usize)
        requires
            self.wf(),
        ensures
            r == self@.len(),
    {
        self.buf.len() - self.pos
    }

    /// Fills `buf` with the next bytes; fails, reading nothing, where fewer
    /// are left.
    pub fn read(&mut self, buf: &mut [u8]) -> (r: Result<(), ()>)
        requires
            old(self).wf(),
        ensures
            final(self).wf(),
            final(buf)@.len() == old(buf)@.len(),
            r is Ok <==> old(buf)@.len() <= old(self)@.len(),
            r is Ok ==> final(buf)@ == old(self)@.take(old(buf)@.len() as int) && final(self)@
                == old(self)@.skip(old(buf)@.len() as int),
            r is Err ==> final(self)@ == old(self)@ && final(buf)@ == old(buf)@,
    {
        let len = buf.len();
        if len <= self.buf.len() - self.pos {
            let mut i: usize = 0;
            while i < len
                invariant
                    self.wf(),
                    len == buf@.len(),
                    len <= self.buf@.len() - self.pos,
                    i <= len,
                    forall|j: int| 0 <= j < i ==> buf@[j] == self.buf@[self.pos + j],
                decreases len - i,
            {
                buf[i] = self.buf[self.pos + i];
                i = i + 1;
            }
            assert(buf@ =~= self@.take(len as int));
            self.pos = self.pos + len;
            assert(self@ =~= old(self)@.skip(len as int));
            Ok(())
        } else {
            Err(())
        }
    }

    /// Reads `width` bytes as one big-endian unsigned value.
    pub fn read_be(&mut self, width: usize) -> (r: Result<u64, ProtocolError>)
        requires
            old(self).wf(),
            width <= 8,
        ensures
            final(self).wf(),
            r is Ok <==> width <= old(self)@.len(),
            r matches Ok(v) ==> v as nat == be_value(old(self)@.take(width as int))
                && final(self)@ == old(self)@.skip(width as int),
            r matches Err(e) ==> e == ProtocolError::Malformed && final(self)@ == old(self)@,
    {
        if width > self.buf.len() - self.pos {
            return Err(ProtocolError::Malformed);
        }
        let ghost s = self@;
        let mut i: usize = 0;
        let mut acc: u64 = 0;
        while i < width
            invariant
                self.wf(),
                s == self@,
                width <= 8,
                width <= s.len(),
                i <= width,
                acc as nat == be_value(s.take(i as int)),
            decreases width - i,
        {
            let byte = self.buf[self.pos + i];
            assert(byte == s[i as int]);
            proof {
                lemma_be_value_bound(s.take(i as int));
                vstd::arithmetic::power::lemma_pow_increases(256, (i + 1) as nat, 8);
                reveal_with_fuel(vstd::arithmetic::power::pow, 9);
                assert(s.take(i + 1).drop_last() =~= s.take(i as int));
                lemma_be_value_bound(s.take(i + 1));
            }
            acc = acc * 256 + byte as u64;
            i = i + 1;
        }
        self.pos = self.pos + width;
        assert(self@ =~= s.skip(width as int));
        Ok(acc)
    }

    /// Reads one unsigned byte.
    pub fn read_u8(&mut self) -> (r: Result<u8, ProtocolError>)
        requires
            old(self).wf(),
        ensures
            final(self).wf(),
            r is Ok <==> 1 <= old(self)@.len(),
            r matches Ok(v) ==> v == old(self)@[0] && final(self)@ == old(self)@.skip(1),
            r matches Err(e) ==> e == ProtocolError::Malformed && final(self)@ == old(self)@,
    {
        let v = self.read_be(1)?;
        proof {
            let t = old(self)@.take(1);
            assert(t.drop_last() =~= Seq::<u8>::empty());
            assert(be_value(Seq::<u8>::empty()) == 0);
            assert(be_value(t) == be_value(t.drop_last()) * 256 + t.last() as nat);
        }
        Ok(v as u8)
    }

    /// Reads one byte as a flag: anything but zero is `true`.
    pub fn read_bool(&mut self) -> (r: Result<bool, ProtocolError>)
        requires
            old(self).wf(),
        ensures
            final(self).wf(),
            r is Ok <==> 1 <= old(self)@.len(),
            r matches Ok(v) ==> v == (old(self)@[0] != 0) && final(self)@ == old(self)@.skip(1),
            r matches Err(e) ==> e == ProtocolError::Malformed && final(self)@ == old(self)@,
    {
        Ok(self.read_u8()? != 0)
    }

    /// Reads a big-endian `u16`.
    pub fn read_u16(&mut self) -> (r: Result<u16, ProtocolError>)
        requires
            old(self).wf(),
        ensures
            final(self).wf(),
            r is Ok <==> 2 <= old(self)@.len(),
            r matches Ok(v) ==> v as nat == be_value(old(self)@.take(2)) && final(self)@ == old(
                self,
            )@.skip(2),
            r matches Err(e) ==> e == ProtocolError::Malformed && final(self)@ == old(self)@,
    {
        let v = self.read_be(2)?;
        proof {
            lemma_be_value_bound(old(self)@.take(2));
            reveal_with_fuel(vstd::arithmetic::power::pow, 3);
        }
        Ok(v as u16)
    }

    /// Reads a big-endian `i64`.
    pub fn read_i64(&mut self) -> (r: Result<i64, ProtocolError>)
        requires
            old(self).wf(),
        ensures
            final(self).wf(),
            r is Ok <==> 8 <= old(self)@.len(),
            r matches Ok(v) ==> v == spec_i64(old(self)@) && final(self)@ == old(self)@.skip(8),
            r matches Err(e) ==> e == ProtocolError::Malformed && final(self)@ == old(self)@,
    {
        let v = self.read_be(8)?;
        Ok(#[verifier::truncate] (v as i64))
    }

    /// Reads a 32-bit varint.
    pub fn read_varint(&mut self) -> (r: Result<i32, ProtocolError>)
        requires
            old(self).wf(),
        ensures
            final(self).wf(),
            r is Ok <==> spec_varint(old(self)@) is Some,
            r matches Ok(v) ==> spec_varint(old(self)@) == Some((v, (old(self)@.len() - final(self)@.len()) as nat)),
            final(self)@.len() <= old(self)@.len(),
            r is Ok ==> final(self)@ == old(self)@.skip(old(self)@.len() - final(self)@.len()),
            r matches Err(e) ==> e == ProtocolError::Malformed && final(self)@ == old(self)@,
    {
        match scan_varint(&self.buf, self.pos, VARINT_MAX_BYTES) {
            Ok((v, n)) => {
                proof {
                    crate::varint::lemma_varint_end_from(old(self)@, VARINT_MAX_BYTES as nat, 0);
                }
                self.pos = self.pos + n;
                assert(self@ =~= old(self)@.skip(n as int));
                Ok(#[verifier::truncate] ((#[verifier::truncate] (v as u32)) as i32))
            },
            Err(_) => Err(ProtocolError::Malformed),
        }
    }

    /// Reads a string: a varint byte length of at most `max`, then that many
    /// bytes of UTF-8.
    pub fn read_string(&mut self, max: usize) -> (r: Result<String, ProtocolError>)
        requires
            old(self).wf(),
        ensures
            final(self).wf(),
            r is Ok <==> spec_string(old(self)@, max as nat) is Some,
            r matches Ok(v) ==> spec_string(old(self)@, max as nat) == Some((v@, (old(self)@.len() - final(self)@.len()) as nat)),
            final(self)@.len() <= old(self)@.len(),
            r is Ok ==> final(self)@ == old(self)@.skip(old(self)@.len() - final(self)@.len()),
            r matches Err(e) ==> e == ProtocolError::Malformed,
    {
        let len = self.read_varint()?;
        let ghost after = self@;
        let ghost n1 = old(self)@.len() - after.len();
        assert(after == old(self)@.skip(n1));
        assert(spec_varint(old(self)@) == Some((len, n1 as nat)));
        if len < 0 || len as usize > max || len as usize > self.buf.len() - self.pos {
            return Err(ProtocolError::Malformed);
        }
        let len = len as usize;
        let mut bytes: Vec<u8> = Vec::new();
        let mut i: usize = 0;
        while i < len
            invariant
                self.wf(),
                after == self@,
                len <= self@.len(),
                i <= len,
                bytes@ == after.take(i as int),
            decreases len - i,
        {
            bytes.push(self.buf[self.pos + i]);
            i = i + 1;
            assert(bytes@ =~= after.take(i as int));
        }
        self.pos = self.pos + len;
        assert(self@ =~= after.skip(len as int));
        assert(self@ =~= old(self)@.skip(n1 + len)) by {
            assert forall|j: int| 0 <= j < self@.len() implies self@[j] == old(self)@.skip(n1 + len)[j] by {
                assert(self@[j] == after[len + j]);
                assert(after[len + j] == old(self)@[n1 + len + j]);
            }
        }
        match string_from_utf8(bytes) {
            Some(s) => Ok(s),
            None => Err(ProtocolError::Malformed),
        }
    }
}

} // verus!
