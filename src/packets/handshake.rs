//! The handshake packet: the client's protocol version, the address and port
//! it dialled, and the phase it asks for next.

use vstd::prelude::*;

use crate::error::ProtocolError;
use crate::net::{next_state_from, state_of_next, State};
use crate::read::{be_value, spec_string, Slice};
use crate::varint::spec_varint;

verus! {

/// The longest server address a handshake may carry, in bytes.
pub const MAX_ADDRESS_LEN: usize = 255;

/// The fields of a handshake at the front of `s`: protocol version, server
/// address, server port and the raw `next_state` value.
pub open spec fn spec_handshake(s: Seq<u8>) -> Option<(i32, Seq<char>, u16, i32)> {
    match spec_varint(s) {
        None => None,
        Some((version, n1)) => {
            let s1 = s.skip(n1 as int);
            match spec_string(s1, MAX_ADDRESS_LEN as nat) {
                None => None,
                Some((address, n2)) => {
                    let s2 = s1.skip(n2 as int);
                    if s2.len() < 2 {
                        None
                    } else {
                        match spec_varint(s2.skip(2)) {
                            None => None,
                            Some((next, _)) => Some(
                                (version, address, be_value(s2.take(2)) as u16, next),
                            ),
                        }
                    }
                },
            }
        },
    }
}

/// The first packet of a connection.
pub struct HandshakePacket {
    pub protocol_version: i32,
    pub server_address: String,
    pub server_port: u16,
    pub next_state: State,
}

impl HandshakePacket {
    /// Decodes a handshake from the fields of a packet.
    pub fn read_packet(data: &mut Slice) -> (r: Result<HandshakePacket, ProtocolError>)
        requires
            old(data).wf(),
        ensures
            final(data).wf(),
            r is Ok <==> spec_handshake(old(data)@) is Some,
            r matches Err(e) ==> e == ProtocolError::Malformed,
            r matches Ok(h) ==> spec_handshake(old(data)@) matches Some(f) && f.0
                == h.protocol_version && f.1 == h.server_address@ && f.2 == h.server_port
                && state_of_next(f.3) == h.next_state,
    {
        let ghost s = data@;
        let protocol_version = data.read_varint()?;
        let ghost s1 = data@;
        let server_address = data.read_string(MAX_ADDRESS_LEN)?;
        let ghost s2 = data@;
        let server_port = data.read_u16()?;
        let ghost s3 = data@;
        proof {
            assert(s1 == s.skip(s.len() - s1.len()));
            assert(s2 == s1.skip(s1.len() - s2.len()));
        }
        let next = data.read_varint()?;
        Ok(
            HandshakePacket {
                protocol_version,
                server_address,
                server_port,
                next_state: next_state_from(next),
            },
        )
    }
}

} // verus!
