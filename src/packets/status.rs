//! The status phase: the server description asked for by a status request,
//! and the ping that is echoed back.

use vstd::prelude::*;
use vstd::utf8::encode_utf8;

use crate::error::ProtocolError;
use crate::read::{spec_i64, Slice};
use crate::varint::{encode_varint, write_varint};
use crate::write::{encode_frame, encode_i64, encode_string, write_frame, write_i64, write_string};

verus! {

/// The longest status document a response frame can carry, in bytes, so that
/// the frame length fits its `i32` prefix.
pub const MAX_STATUS_JSON_LEN: usize = 0x7fff_0000;

/// The server identity shown in a client's server list. It is sent as a JSON
/// document, whose text the caller renders from these fields.
pub struct StatusJson {
    pub version: VersionData,
    pub players: Option<PlayerData>,
    pub description: Option<DescriptionData>,
    pub favicon: Option<String>,
    pub enforces_secure_chat: bool,
}

/// The game version's name and protocol number.
pub struct VersionData {
    pub name: String,
    pub protocol: i32,
}

/// Player counts and an optional sample of who is online.
pub struct PlayerData {
    pub max: u32,
    pub online: u32,
    pub sample: Option<Vec<SamplePlayer>>,
}

/// One player of the sample.
pub struct SamplePlayer {
    pub name: String,
    pub id: String,
}

/// The message of the day.
pub struct DescriptionData {
    pub text: String,
}

/// The frame that answers a status request with the document `json`.
pub open spec fn status_response_frame(json: Seq<char>) -> Seq<u8> {
    encode_frame(encode_varint(0) + encode_string(json))
}

/// The frame that answers a ping with `payload`.
pub open spec fn pong_frame(payload: i64) -> Seq<u8> {
    encode_frame(encode_varint(1) + encode_i64(payload))
}

/// Appends the status response frame, packet id 0x00, carrying `json`.
pub fn write_status_response(out: &mut Vec<u8>, json: &str)
    requires
        encode_utf8(json@).len() <= MAX_STATUS_JSON_LEN,
    ensures
        final(out)@ == old(out)@ + status_response_frame(json@),
{
    let mut payload: Vec<u8> = Vec::new();
    write_varint(&mut payload, 0);
    write_string(&mut payload, json);
    proof {
        crate::varint::lemma_varint_round_trip(0, Seq::empty());
        crate::varint::lemma_varint_round_trip(encode_utf8(json@).len() as i32, Seq::empty());
        assert(payload@ == encode_varint(0) + encode_string(json@));
    }
    write_frame(out, payload.as_slice());
}

/// A ping: a number the client wants echoed.
pub struct PingRequest {
    pub payload: i64,
}

impl PingRequest {
    /// Decodes a ping from the fields of a packet.
    pub fn read_packet(data: &mut Slice) -> (r: Result<PingRequest, ProtocolError>)
        requires
            old(data).wf(),
        ensures
            final(data).wf(),
            r is Ok <==> 8 <= old(data)@.len(),
            r matches Ok(p) ==> p.payload == spec_i64(old(data)@),
            r matches Err(e) ==> e == ProtocolError::Malformed,
    {
        Ok(PingRequest { payload: data.read_i64()? })
    }
}

/// The answer to a ping, carrying its number back.
pub struct PongResponse {
    pub payload: i64,
}

impl PongResponse {
    /// Appends the pong frame, packet id 0x01.
    pub fn write_packet(&self, out: &mut Vec<u8>)
        ensures
            final(out)@ == old(out)@ + pong_frame(self.payload),
    {
        write_varint(out, 1 + 8);
        write_varint(out, 0x01);
        write_i64(out, self.payload);
        proof {
            crate::write::lemma_i64_round_trip(self.payload, Seq::empty());
            assert(encode_varint(9) =~= seq![9u8]);
            assert(encode_varint(1) =~= seq![1u8]);
            assert(final(out)@ =~= old(out)@ + pong_frame(self.payload));
        }
    }
}

} // verus!
