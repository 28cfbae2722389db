//! Frames and the packets they carry.

use vstd::prelude::*;

use crate::error::ProtocolError;
use crate::read::Slice;
use crate::write::encode_frame;
use crate::varint::{encode_varint, lemma_varint_round_trip, scan_varint, spec_varint, varint_overlong, VARINT_MAX_BYTES};

pub mod handshake;
pub mod status;

verus! {

/// One decoded frame: its packet id and a cursor over the fields after it.
#[derive(Debug)]
pub struct Packet {
    pub id: i32,
    pub data: Slice,
}

/// What the front of a byte stream holds, with frames of at most `max`
/// bytes: `None` when it breaks the framing, `Some(None)` when the first
/// frame is not all there yet, and otherwise the first frame's packet id,
/// the fields after it, and the number of stream bytes the frame spans.
pub open spec fn spec_frame(s: Seq<u8>, max: nat) -> Option<Option<(i32, Seq<u8>, nat)>> {
    match spec_varint(s) {
        None => if varint_overlong(s, VARINT_MAX_BYTES as nat) {
            None
        } else {
            Some(None)
        },
        Some((len, n)) => if len < 0 || len > max {
            None
        } else if n + len > s.len() {
            Some(None)
        } else {
            let body = s.subrange(n as int, n + len);
            match spec_varint(body) {
                None => None,
                Some((id, k)) => Some(Some((id, body.skip(k as int), n + len as nat))),
            }
        },
    }
}

/// Takes the first frame off the front of `input`, with frames of at most
/// `max_len` bytes. `Ok(None)` asks for more bytes.
pub fn parse_packet(input: &[u8], max_len: usize) -> (r: Result<Option<(Packet, usize)>, ProtocolError>)
    ensures
        spec_frame(input@, max_len as nat) is None <==> r is Err,
        r matches Err(e) ==> e == ProtocolError::Malformed,
        spec_frame(input@, max_len as nat) == Some(None::<(i32, Seq<u8>, nat)>) <==> r == Ok::<Option<(Packet, usize)>, ProtocolError>(None),
        r matches Ok(Some((p, used))) ==> 0 < used <= input@.len() && p.data.wf() && spec_frame(input@, max_len as nat) == Some(Some((p.id, p.data@, used as nat))),
{
    let (raw, n) = match scan_varint(input, 0, VARINT_MAX_BYTES) {
        Ok(found) => found,
        Err(overlong) => {
            assert(input@.skip(0) =~= input@);
            if overlong {
                return Err(ProtocolError::Malformed);
            }
            return Ok(None);
        },
    };
    assert(input@.skip(0) =~= input@);
    proof {
        crate::varint::lemma_varint_end_from(input@, VARINT_MAX_BYTES as nat, 0);
    }
    let length: i32 = #[verifier::truncate] ((#[verifier::truncate] (raw as u32)) as i32);
    if length < 0 || length as usize > max_len {
        return Err(ProtocolError::Malformed);
    }
    let length = length as usize;
    if length > input.len() - n {
        return Ok(None);
    }
    let mut frame: Vec<u8> = Vec::new();
    let mut i: usize = 0;
    while i < length
        invariant
            i <= length,
            n + length <= input@.len(),
            input@.len() <= usize::MAX,
            frame@ == input@.subrange(n as int, n + i),
        decreases length - i,
    {
        frame.push(input[n + i]);
        i = i + 1;
        assert(frame@ =~= input@.subrange(n as int, n + i));
    }
    let mut data = Slice::from_vec(frame);
    let id = data.read_varint()?;
    Ok(Some((Packet { id, data }, n + length)))
}

/// A frame built from a packet id and its fields reads back as that id and
/// those fields, whatever follows it.
pub proof fn lemma_frame_round_trip(id: i32, fields: Seq<u8>, rest: Seq<u8>, max: nat)
    requires
        (encode_varint(id) + fields).len() <= max,
        max <= i32::MAX,
    ensures
        spec_frame(encode_frame(encode_varint(id) + fields) + rest, max) == Some(
            Some((id, fields, encode_frame(encode_varint(id) + fields).len())),
        ),
{
    let p = encode_varint(id) + fields;
    let len = p.len() as i32;
    let s = encode_frame(p) + rest;
    lemma_varint_round_trip(len, p + rest);
    assert(s =~= encode_varint(len) + (p + rest));
    let n = encode_varint(len).len();
    assert(s.subrange(n as int, n + len) =~= p);
    lemma_varint_round_trip(id, fields);
    assert(p.skip(encode_varint(id).len() as int) =~= fields);
}

/// A frame is malformed when its length prefix runs over five bytes.
pub proof fn lemma_frame_overlong(s: Seq<u8>, max: nat)
    requires
        varint_overlong(s, VARINT_MAX_BYTES as nat),
    ensures
        spec_frame(s, max) is None,
{
    crate::varint::lemma_varint_overlong(s);
}

} // verus!
