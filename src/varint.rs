//! Variable-length integers: seven payload bits per byte, least significant
//! group first, the high bit of every byte but the last set.

use vstd::prelude::*;

verus! {

/// At most this many bytes make up a 32-bit varint.
pub const VARINT_MAX_BYTES: usize = 5;

/// The varint bytes of a non-negative value.
pub open spec fn varint_bytes(v: nat) -> Seq<u8>
    decreases v,
{
    if v < 128 {
        seq![v as u8]
    } else {
        seq![(v % 128 + 128) as u8] + varint_bytes(v / 128)
    }
}

/// The encoding of an `i32`: its two's-complement bit pattern, never zig-zagged.
pub open spec fn encode_varint(v: i32) -> Seq<u8> {
    varint_bytes((v as u32) as nat)
}

/// The value of the seven-bit groups of `s`, the first group least significant.
pub open spec fn groups_value(s: Seq<u8>) -> nat
    decreases s.len(),
{
    if s.len() == 0 {
        0
    } else {
        (s[0] % 128) as nat + 128 * groups_value(s.drop_first())
    }
}

/// Where the varint at the front of `s` ends, looking at positions `i` to
/// `max - 1` only: one past the first byte whose continuation bit is clear.
pub open spec fn varint_end_from(s: Seq<u8>, max: nat, i: nat) -> Option<nat>
    decreases max - i,
{
    if i >= max || i >= s.len() {
        None
    } else if s[i as int] < 128 {
        Some(i + 1)
    } else {
        varint_end_from(s, max, i + 1)
    }
}

/// The length of the varint at the front of `s`, if it ends within `max` bytes.
pub open spec fn varint_end(s: Seq<u8>, max: nat) -> Option<nat> {
    varint_end_from(s, max, 0)
}

/// The first `max` bytes of `s` are all there and all carry the continuation bit.
pub open spec fn varint_overlong(s: Seq<u8>, max: nat) -> bool {
    s.len() >= max && forall|j: int| 0 <= j < max ==> s[j] >= 128
}

/// The 32-bit varint at the front of `s` and its length in bytes; `None` when
/// it is overlong or cut short.
pub open spec fn spec_varint(s: Seq<u8>) -> Option<(i32, nat)> {
    match varint_end(s, VARINT_MAX_BYTES as nat) {
        Some(n) => Some((((groups_value(s.take(n as int)) as u64) as u32) as i32, n)),
        None => None,
    }
}

pub proof fn lemma_groups_take(s: Seq<u8>, i: nat)
    requires
        i < s.len(),
    ensures
        groups_value(s.take(i as int + 1)) == groups_value(s.take(i as int)) + (s[i as int]
            % 128) as nat * vstd::arithmetic::power::pow(128, i),
    decreases i,
{
    reveal(vstd::arithmetic::power::pow);
    if i == 0 {
        assert(s.take(1).drop_first() =~= Seq::<u8>::empty());
        assert(s.take(0) =~= Seq::<u8>::empty());
    } else {
        let t = s.drop_first();
        lemma_groups_take(t, (i - 1) as nat);
        assert(s.take(i as int + 1).drop_first() =~= t.take(i as int));
        assert(s.take(i as int).drop_first() =~= t.take(i - 1));
        assert(t[i - 1] == s[i as int]);
        let p = vstd::arithmetic::power::pow(128, (i - 1) as nat);
        assert(128 * (groups_value(t.take(i - 1)) + (s[i as int] % 128) as nat * p) == 128
            * groups_value(t.take(i - 1)) + (s[i as int] % 128) as nat * (128 * p))
            by (nonlinear_arith);
    }
}

/// Every byte before the end of the varint carries the continuation bit.
pub proof fn lemma_varint_end_from(s: Seq<u8>, max: nat, i: nat)
    requires
        forall|j: int| 0 <= j < i ==> s[j] >= 128,
        i <= s.len(),
    ensures
        varint_end_from(s, max, i) matches Some(n) ==> (i < n <= max && n <= s.len() && s[n
            - 1] < 128 && forall|j: int| 0 <= j < n - 1 ==> s[j] >= 128),
        varint_end_from(s, max, i) is None ==> (varint_overlong(s, max) || (s.len() < max
            && forall|j: int| 0 <= j < s.len() ==> s[j] >= 128) || i >= max),
    decreases max - i,
{
    if i >= max || i >= s.len() {
    } else if s[i as int] < 128 {
    } else {
        lemma_varint_end_from(s, max, i + 1);
    }
}

/// Scans the varint that starts at `start` in `buf`, reading at most `max`
/// bytes. Returns its value, as the unbounded sum of its groups, and length.
pub(crate) fn scan_varint(buf: &[u8], start: usize, max: usize) -> (r: Result<(u64, usize), bool>)
    requires
        start <= buf@.len(),
        1 <= max <= 9,
    ensures
        ({
            let s = buf@.skip(start as int);
            match r {
                Ok((v, n)) => varint_end(s, max as nat) == Some(n as nat) && v as nat
                    == groups_value(s.take(n as int)),
                Err(overlong) => varint_end(s, max as nat) is None && overlong == varint_overlong(
                    s,
                    max as nat,
                ),
            }
        }),
{
    let ghost s = buf@.skip(start as int);
    let mut i: usize = 0;
    let mut acc: u64 = 0;
    let mut mult: u64 = 1;
    proof {
        reveal(vstd::arithmetic::power::pow);
    }
    while i < max && i < buf.len() - start
        invariant
            s == buf@.skip(start as int),
            start <= buf@.len(),
            1 <= max <= 9,
            i <= max,
            start + i <= buf@.len(),
            forall|j: int| 0 <= j < i ==> s[j] >= 128,
            varint_end(s, max as nat) == varint_end_from(s, max as nat, i as nat),
            acc as nat == groups_value(s.take(i as int)),
            mult as nat == vstd::arithmetic::power::pow(128, i as nat),
            acc < mult,
            mult <= 0x8000_0000_0000_0000,
        decreases max - i,
    {
        let byte = buf[start + i];
        assert(byte == s[i as int]);
        proof {
            lemma_groups_take(s, i as nat);
            reveal(vstd::arithmetic::power::pow);
        }
        let low = (byte % 128) as u64;
        assert(acc + low * mult < mult * 128 && low * mult < mult * 128) by (nonlinear_arith)
            requires
                acc < mult,
                low < 128,
        ;
        assert(mult * 128 <= 0x8000_0000_0000_0000) by {
            lemma_pow128_bound(i as nat);
        }
        acc = acc + low * mult;
        if byte < 128 {
            return Ok((acc, i + 1));
        }
        i = i + 1;
        mult = mult * 128;
    }
    proof {
        lemma_varint_end_from(s, max as nat, i as nat);
        if i >= max {
            assert(varint_overlong(s, max as nat));
        } else {
            assert(!varint_overlong(s, max as nat));
        }
    }
    Err(i >= max)
}

proof fn lemma_pow128_bound(i: nat)
    requires
        i <= 8,
    ensures
        vstd::arithmetic::power::pow(128, i) <= 0x100_0000_0000_0000int,
{
    vstd::arithmetic::power::lemma_pow_increases(128, i, 8);
    reveal_with_fuel(vstd::arithmetic::power::pow, 9);
}

/// Appends the varint encoding of `value` to `out`.
pub fn write_varint(out: &mut Vec<u8>, value: i32)
    ensures
        final(out)@ == old(out)@ + encode_varint(value),
{
    let ghost start = out@;
    let mut v: u32 = #[verifier::truncate] (value as u32);
    loop
        invariant_except_break
            out@ + varint_bytes(v as nat) == start + encode_varint(value),
        ensures
            out@ == start + encode_varint(value),
        decreases v,
    {
        let byte: u8 = (v & 0x7f) as u8;
        let next: u32 = v >> 7;
        assert(byte == v % 128 && next == v / 128) by (bit_vector)
            requires
                byte == (v & 0x7f) as u8,
                next == v >> 7,
        ;
        if next == 0 {
            out.push(byte);
            assert(out@ =~= start + encode_varint(value));
            break ;
        }
        let cont: u8 = byte | 0x80;
        assert(cont == byte + 128) by (bit_vector)
            requires
                cont == byte | 0x80,
                byte < 128,
        ;
        out.push(cont);
        assert(varint_bytes(v as nat) == seq![cont] + varint_bytes(next as nat));
        assert(out@ + varint_bytes(next as nat) =~= start + encode_varint(value));
        v = next;
    }
}

/// The shape of an encoding: continuation bits on every byte but the last,
/// and at most `k` bytes for a value below `128^k`.
pub proof fn lemma_varint_bytes_shape(v: nat, k: nat)
    requires
        1 <= k,
        v < vstd::arithmetic::power::pow(128, k),
    ensures
        1 <= varint_bytes(v).len() <= k,
        varint_bytes(v).last() < 128,
        forall|j: int| 0 <= j < varint_bytes(v).len() - 1 ==> varint_bytes(v)[j] >= 128,
        groups_value(varint_bytes(v)) == v,
    decreases v,
{
    reveal(vstd::arithmetic::power::pow);
    if v < 128 {
        assert(varint_bytes(v).drop_first() =~= Seq::<u8>::empty());
        assert(groups_value(Seq::<u8>::empty()) == 0);
        assert(varint_bytes(v)[0] == v);
    } else {
        if k == 1 {
            assert(vstd::arithmetic::power::pow(128, 0) == 1);
        } else {
            assert(v / 128 < vstd::arithmetic::power::pow(128, (k - 1) as nat)) by {
                let p = vstd::arithmetic::power::pow(128, (k - 1) as nat);
                assert(v < 128 * p);
                assert(v / 128 < p) by (nonlinear_arith)
                    requires
                        v < 128 * p,
                ;
            }
            lemma_varint_bytes_shape(v / 128, (k - 1) as nat);
            let b = varint_bytes(v);
            let r = varint_bytes(v / 128);
            assert(b.drop_first() =~= r);
            assert forall|j: int| 0 <= j < b.len() - 1 implies b[j] >= 128 by {
                if j > 0 {
                    assert(b[j] == r[j - 1]);
                }
            }
            assert(b[0] % 128 == v % 128);
            assert(v == v % 128 + 128 * (v / 128));
            assert(groups_value(b) == (b[0] % 128) as nat + 128 * groups_value(b.drop_first()));
        }
    }
}

proof fn lemma_varint_end_of_shape(s: Seq<u8>, n: nat, max: nat, i: nat)
    requires
        i < n <= max,
        n <= s.len(),
        s[n - 1] < 128,
        forall|j: int| 0 <= j < n - 1 ==> s[j] >= 128,
    ensures
        varint_end_from(s, max, i) == Some(n),
    decreases n - i,
{
    if i + 1 < n {
        lemma_varint_end_of_shape(s, n, max, i + 1);
    }
}

/// Decoding an encoded `i32` gives it back, whatever follows it, and an
/// encoding takes at most five bytes.
pub proof fn lemma_varint_round_trip(v: i32, tail: Seq<u8>)
    ensures
        encode_varint(v).len() <= VARINT_MAX_BYTES,
        spec_varint(encode_varint(v) + tail) == Some((v, encode_varint(v).len())),
{
    let u = (v as u32) as nat;
    assert(vstd::arithmetic::power::pow(128, 5) == 0x8_0000_0000) by {
        reveal_with_fuel(vstd::arithmetic::power::pow, 6);
    }
    lemma_varint_bytes_shape(u, 5);
    let e = encode_varint(v);
    let s = e + tail;
    lemma_varint_end_of_shape(s, e.len(), 5, 0);
    assert(s.take(e.len() as int) =~= e);
    let g = (v as u32) as u64;
    assert(((g as u32) as i32) == v) by (bit_vector)
        requires
            g == (v as u32) as u64,
    ;
}

/// Bytes whose first five all carry the continuation bit are no 32-bit
/// varint, whatever follows.
pub proof fn lemma_varint_overlong(s: Seq<u8>)
    requires
        varint_overlong(s, VARINT_MAX_BYTES as nat),
    ensures
        spec_varint(s) is None,
{
    lemma_varint_end_from(s, VARINT_MAX_BYTES as nat, 0);
}

} // verus!
