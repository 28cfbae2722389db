//! Protocol phases, the events that packets produce, and the per-connection
//! state machine.

use vstd::prelude::*;
use vstd::utf8::encode_utf8;

use crate::error::ProtocolError;
use crate::packets::handshake::{spec_handshake, HandshakePacket};
use crate::packets::status::{
    pong_frame, status_response_frame, write_status_response, PingRequest, PongResponse,
    MAX_STATUS_JSON_LEN,
};
use crate::packets::{parse_packet, spec_frame, Packet};
use crate::queue::{queued, EventQueue};
use crate::packets::lemma_frame_round_trip;
use crate::read::spec_i64;
use crate::varint::{encode_varint, lemma_varint_round_trip};
use crate::write::{be_bytes, encode_frame, encode_string};

verus! {

/// The protocol phase of a connection.
#[derive(Debug, Clone, Copy, PartialEq, Eq, Structural)]
pub enum State {
    Handshake,
    Status,
    Login,
    Transfer,
    Custom(i32),
}

/// What a recognised packet asks of the connection.
#[derive(Debug, Clone, Copy, PartialEq, Eq, Structural)]
pub enum PacketEvent {
    ChangeState(State),
    StatusRequest,
    PingRequest(i64),
}

/// The phase that a handshake's `next_state` field names.
pub open spec fn state_of_next(v: i32) -> State {
    if v == 1 {
        State::Status
    } else if v == 2 {
        State::Login
    } else if v == 3 {
        State::Transfer
    } else {
        State::Custom(v)
    }
}

/// The phase that a handshake's `next_state` field names.
pub fn next_state_from(v: i32) -> (r: State)
    ensures
        r == state_of_next(v),
{
    match v {
        1 => State::Status,
        2 => State::Login,
        3 => State::Transfer,
        any => State::Custom(any),
    }
}

/// The protocol number of a phase: 0 to 3 for the named ones, the raw value
/// for a custom one.
pub open spec fn spec_state_number(s: State) -> i32 {
    match s {
        State::Handshake => 0,
        State::Status => 1,
        State::Login => 2,
        State::Transfer => 3,
        State::Custom(v) => v,
    }
}

impl State {
    /// The protocol number of this phase.
    pub fn number(&self) -> (r: i32)
        ensures
            r == spec_state_number(*self),
    {
        match self {
            State::Handshake => 0,
            State::Status => 1,
            State::Login => 2,
            State::Transfer => 3,
            State::Custom(v) => *v,
        }
    }
}

/// The largest frame a connection accepts, in bytes after the length prefix:
/// the most that a three-byte varint can declare.
pub const MAX_FRAME_LEN: usize = 2097151;

/// The event that packet `id` with fields `fields` yields in `state`: an
/// error for a malformed packet, `UnknownPacket` for an id that has no
/// schema in that state.
pub open spec fn spec_event(state: State, id: i32, fields: Seq<u8>) -> Result<PacketEvent, ProtocolError> {
    match state {
        State::Handshake => if id == 0 {
            match spec_handshake(fields) {
                Some(h) => Ok(PacketEvent::ChangeState(state_of_next(h.3))),
                None => Err(ProtocolError::Malformed),
            }
        } else {
            Err(ProtocolError::UnknownPacket)
        },
        State::Status => if id == 0 {
            Ok(PacketEvent::StatusRequest)
        } else if id == 1 {
            if fields.len() >= 8 {
                Ok(PacketEvent::PingRequest(spec_i64(fields)))
            } else {
                Err(ProtocolError::Malformed)
            }
        } else {
            Err(ProtocolError::UnknownPacket)
        },
        _ => Err(ProtocolError::UnknownPacket),
    }
}

/// The phase after handling `e` in `state`.
pub open spec fn apply_event(state: State, e: PacketEvent) -> State {
    match e {
        PacketEvent::ChangeState(next) => next,
        _ => state,
    }
}

/// The bytes sent in answer to `e`, with `json` as the status document.
pub open spec fn response(e: PacketEvent, json: Seq<char>) -> Seq<u8> {
    match e {
        PacketEvent::ChangeState(_) => Seq::empty(),
        PacketEvent::StatusRequest => status_response_frame(json),
        PacketEvent::PingRequest(p) => pong_frame(p),
    }
}

/// Handling one packet: the next phase and the bytes sent, or the error that
/// ends the connection. A packet with no schema changes nothing.
pub open spec fn spec_step(state: State, id: i32, fields: Seq<u8>, json: Seq<char>) -> Result<(State, Seq<u8>), ProtocolError> {
    match spec_event(state, id, fields) {
        Ok(e) => Ok((apply_event(state, e), response(e, json))),
        Err(ProtocolError::UnknownPacket) => Ok((state, Seq::empty())),
        Err(e) => Err(e),
    }
}

/// Handling the frames at the front of `s` in order, each under the phase
/// the previous ones left: the final phase, the bytes sent, the number of
/// stream bytes consumed, and the error that stopped it, if any. A trailing
/// partial frame is left for later. (A frame spans at least its length
/// prefix, so the last branch below is never taken.)
pub open spec fn spec_run(state: State, s: Seq<u8>, json: Seq<char>) -> (State, Seq<u8>, nat, Option<ProtocolError>)
    decreases s.len(),
{
    match spec_frame(s, MAX_FRAME_LEN as nat) {
        None => (state, Seq::empty(), 0, Some(ProtocolError::Malformed)),
        Some(None) => (state, Seq::empty(), 0, None),
        Some(Some((id, fields, used))) => match spec_step(state, id, fields, json) {
            Err(e) => (state, Seq::empty(), 0, Some(e)),
            Ok((next, sent)) => if 0 < used <= s.len() {
                let rest = spec_run(next, s.skip(used as int), json);
                (rest.0, sent + rest.1, used + rest.2, rest.3)
            } else {
                (next, sent, used, None)
            },
        },
    }
}

/// One client connection: its phase, its event queue and the status
/// document it serves.
pub struct Connection {
    state: State,
    events: EventQueue,
    status_json: String,
}

impl Connection {
    /// Between frames the event queue is empty.
    pub closed spec fn wf(&self) -> bool {
        &&& queued(self.events).len() == 0
        &&& encode_utf8(self.status_json@).len() <= MAX_STATUS_JSON_LEN
    }

    /// The current phase.
    pub closed spec fn spec_state(&self) -> State {
        self.state
    }

    /// The status document this connection serves.
    pub closed spec fn status_json(&self) -> Seq<char> {
        self.status_json@
    }

    /// A connection in the handshake phase that answers status requests
    /// with `status_json`.
    pub fn new(status_json: String) -> (r: Connection)
        requires
            encode_utf8(status_json@).len() <= MAX_STATUS_JSON_LEN,
        ensures
            r.wf(),
            r.spec_state() == State::Handshake,
            r.status_json() == status_json@,
    {
        Connection { state: State::Handshake, events: EventQueue::new(), status_json }
    }

    /// The current phase.
    pub fn state(&self) -> (r: State)
        ensures
            r == self.spec_state(),
    {
        self.state
    }

    /// Decodes `packet` under the current phase and queues the event it
    /// yields.
    fn read_packets(&mut self, packet: &mut Packet) -> (r: Result<(), ProtocolError>)
        requires
            old(self).wf(),
            old(packet).data.wf(),
        ensures
            final(self).state == old(self).state,
            final(self).status_json == old(self).status_json,
            spec_event(old(self).state, old(packet).id, old(packet).data@) matches Ok(e) ==> (r is Ok
                && queued(final(self).events) == seq![e]),
            spec_event(old(self).state, old(packet).id, old(packet).data@) matches Err(e) ==> (r
                matches Err(x) && x == e && queued(final(self).events).len() == 0),
    {
        let event = match self.state {
            State::Handshake => {
                if packet.id == 0x00 {
                    let handshake = HandshakePacket::read_packet(&mut packet.data)?;
                    PacketEvent::ChangeState(handshake.next_state)
                } else {
                    return Err(ProtocolError::UnknownPacket);
                }
            },
            State::Status => {
                if packet.id == 0x00 {
                    PacketEvent::StatusRequest
                } else if packet.id == 0x01 {
                    let ping = PingRequest::read_packet(&mut packet.data)?;
                    PacketEvent::PingRequest(ping.payload)
                } else {
                    return Err(ProtocolError::UnknownPacket);
                }
            },
            _ => {
                return Err(ProtocolError::UnknownPacket);
            },
        };
        // The queue is empty between frames, so the send never finds it full.
        match self.events.try_send(event) {
            Ok(()) => Ok(()),
            Err(_) => {
                proof {
                    assert(false);
                }
                Err(ProtocolError::Malformed)
            },
        }
    }

    /// Takes every queued event in order: a phase change takes effect at
    /// once, requests are answered into `out`.
    fn drain(&mut self, out: &mut Vec<u8>)
        requires
            queued(old(self).events).len() <= 1,
            encode_utf8(old(self).status_json@).len() <= MAX_STATUS_JSON_LEN,
        ensures
            final(self).status_json == old(self).status_json,
            queued(final(self).events).len() == 0,
            queued(old(self).events).len() == 0 ==> final(self).state == old(self).state
                && final(out)@ == old(out)@,
            queued(old(self).events).len() == 1 ==> final(self).state == apply_event(
                old(self).state,
                queued(old(self).events)[0],
            ) && final(out)@ == old(out)@ + response(
                queued(old(self).events)[0],
                old(self).status_json@,
            ),
    {
        let ghost pending = queued(self.events);
        loop
            invariant_except_break
                queued(self.events).len() <= 1,
                self.status_json == old(self).status_json,
                encode_utf8(self.status_json@).len() <= MAX_STATUS_JSON_LEN,
                queued(self.events).len() == 1 ==> (pending.len() == 1 && queued(self.events)
                    == pending && self.state == old(self).state && out@ == old(out)@),
                queued(self.events).len() == 0 ==> (pending.len() == 0 ==> self.state == old(
                    self,
                ).state && out@ == old(out)@),
                queued(self.events).len() == 0 ==> (pending.len() == 1 ==> self.state
                    == apply_event(old(self).state, pending[0]) && out@ == old(out)@ + response(
                    pending[0],
                    self.status_json@,
                )),
            ensures
                self.status_json == old(self).status_json,
                queued(self.events).len() == 0,
                pending.len() == 0 ==> self.state == old(self).state && out@ == old(out)@,
                pending.len() == 1 ==> self.state == apply_event(old(self).state, pending[0])
                    && out@ == old(out)@ + response(pending[0], self.status_json@),
            decreases queued(self.events).len(),
        {
            let event = match self.events.try_receive() {
                Some(event) => event,
                None => break ,
            };
            match event {
                PacketEvent::ChangeState(next) => {
                    self.state = next;
                },
                PacketEvent::StatusRequest => {
                    write_status_response(out, self.status_json.as_str());
                },
                PacketEvent::PingRequest(payload) => {
                    PongResponse { payload }.write_packet(out);
                },
            }
        }
    }

    /// Handles one packet: decodes it under the current phase, then applies
    /// or answers the event it yields before anything else is read.
    pub fn handle_packet(&mut self, packet: Packet, out: &mut Vec<u8>) -> (r: Result<(), ProtocolError>)
        requires
            old(self).wf(),
            packet.data.wf(),
        ensures
            final(self).wf(),
            final(self).status_json() == old(self).status_json(),
            spec_step(old(self).spec_state(), packet.id, packet.data@, old(self).status_json())
                matches Ok((next, sent)) ==> (r is Ok && final(self).spec_state() == next
                && final(out)@ == old(out)@ + sent),
            spec_step(old(self).spec_state(), packet.id, packet.data@, old(self).status_json())
                matches Err(e) ==> (r matches Err(x) && x == e && final(self).spec_state()
                == old(self).spec_state() && final(out)@ == old(out)@),
    {
        let mut packet = packet;
        match self.read_packets(&mut packet) {
            Ok(()) => {},
            Err(ProtocolError::UnknownPacket) => {
                return Ok(());
            },
            Err(e) => {
                return Err(e);
            },
        }
        self.drain(out);
        Ok(())
    }

    /// Handles every complete frame at the front of `input`, in order, each
    /// under the phase that the previous ones left, answering into `out`.
    /// Returns how many bytes the complete frames spanned; the rest belongs
    /// to a frame still arriving. An error ends the connection.
    pub fn process(&mut self, input: &[u8], out: &mut Vec<u8>) -> (r: Result<usize, ProtocolError>)
        requires
            old(self).wf(),
        ensures
            final(self).wf(),
            final(self).status_json() == old(self).status_json(),
            final(self).spec_state() == spec_run(old(self).spec_state(), input@, old(self).status_json()).0,
            final(out)@ == old(out)@ + spec_run(old(self).spec_state(), input@, old(self).status_json()).1,
            r matches Ok(used) ==> spec_run(old(self).spec_state(), input@, old(self).status_json()).3 is None
                && used == spec_run(old(self).spec_state(), input@, old(self).status_json()).2,
            r matches Err(e) ==> spec_run(old(self).spec_state(), input@, old(self).status_json()).3 == Some(e),
    {
        let ghost json = self.status_json@;
        let ghost whole = spec_run(self.state, input@, json);
        let ghost mut sent: Seq<u8> = Seq::empty();
        let mut pos: usize = 0;
        assert(input@.skip(0) =~= input@);
        loop
            invariant
                self.wf(),
                self.status_json@ == json,
                json == old(self).status_json@,
                whole == spec_run(old(self).state, input@, json),
                pos <= input@.len(),
                out@ == old(out)@ + sent,
                whole.0 == spec_run(self.state, input@.skip(pos as int), json).0,
                whole.1 == sent + spec_run(self.state, input@.skip(pos as int), json).1,
                whole.2 == pos + spec_run(self.state, input@.skip(pos as int), json).2,
                whole.3 == spec_run(self.state, input@.skip(pos as int), json).3,
            decreases input@.len() - pos,
        {
            let rest = vstd::slice::slice_subrange(input, pos, input.len());
            assert(rest@ =~= input@.skip(pos as int));
            match parse_packet(rest, MAX_FRAME_LEN) {
                Err(e) => {
                    assert(sent + Seq::<u8>::empty() =~= sent);
                    return Err(e);
                },
                Ok(None) => {
                    assert(sent + Seq::<u8>::empty() =~= sent);
                    return Ok(pos);
                },
                Ok(Some((packet, used))) => {
                    let ghost before = self.state;
                    let ghost step = spec_step(before, packet.id, packet.data@, json);
                    match self.handle_packet(packet, out) {
                        Err(e) => {
                            assert(sent + Seq::<u8>::empty() =~= sent);
                            return Err(e);
                        },
                        Ok(()) => {},
                    }
                    proof {
                        let o = step.unwrap().1;
                        assert(rest@.skip(used as int) =~= input@.skip(pos + used));
                        assert(out@ =~= old(out)@ + (sent + o));
                        let tail = spec_run(self.state, input@.skip(pos + used), json);
                        assert(sent + (o + tail.1) =~= (sent + o) + tail.1);
                        sent = sent + o;
                    }
                    pos = pos + used;
                },
            }
        }
    }
}

/// The fields of a handshake.
pub open spec fn encode_handshake(version: i32, address: Seq<char>, port: u16, next: i32) -> Seq<u8> {
    encode_varint(version) + encode_string(address) + be_bytes(port as nat, 2) + encode_varint(next)
}

/// The frame of a packet with id `id` and fields `fields`.
pub open spec fn packet_frame(id: i32, fields: Seq<u8>) -> Seq<u8> {
    encode_frame(encode_varint(id) + fields)
}

/// Handshake fields read back as the values they were built from, whatever
/// follows them.
pub proof fn lemma_handshake_round_trip(
    version: i32,
    address: Seq<char>,
    port: u16,
    next: i32,
    tail: Seq<u8>,
)
    requires
        encode_utf8(address).len() <= crate::packets::handshake::MAX_ADDRESS_LEN,
    ensures
        spec_handshake(encode_handshake(version, address, port, next) + tail) == Some(
            (version, address, port, next),
        ),
{
    let a = encode_string(address);
    let p = be_bytes(port as nat, 2);
    let n = encode_varint(next);
    let s = encode_handshake(version, address, port, next) + tail;
    lemma_varint_round_trip(version, a + p + n + tail);
    assert(s =~= encode_varint(version) + (a + p + n + tail));
    let s1 = s.skip(encode_varint(version).len() as int);
    assert(s1 =~= a + (p + n + tail));
    crate::write::lemma_string_round_trip(
        address,
        crate::packets::handshake::MAX_ADDRESS_LEN as nat,
        p + n + tail,
    );
    let s2 = s1.skip(a.len() as int);
    assert(s2 =~= p + (n + tail));
    assert(vstd::arithmetic::power::pow(256, 2) == 65536) by {
        reveal_with_fuel(vstd::arithmetic::power::pow, 3);
    }
    crate::write::lemma_be_round_trip(port as nat, 2);
    assert(s2.take(2) =~= p);
    assert(s2.skip(2) =~= n + tail);
    lemma_varint_round_trip(next, tail);
}

/// In the status phase, a ping is answered with a pong whose payload bytes
/// are the ping's own.
pub proof fn lemma_ping_echo(fields: Seq<u8>, json: Seq<char>)
    requires
        fields.len() == 8,
    ensures
        spec_step(State::Status, 1, fields, json) == Ok::<(State, Seq<u8>), ProtocolError>(
            (State::Status, packet_frame(1, fields)),
        ),
{
    crate::write::lemma_i64_bytes_echo(fields);
}

/// In the status phase, a packet whose id has no schema changes nothing and
/// sends nothing, and the bytes after its frame are handled as if it had
/// never come.
pub proof fn lemma_unknown_packet(id: i32, fields: Seq<u8>, rest: Seq<u8>, json: Seq<char>)
    requires
        id != 0,
        id != 1,
        (encode_varint(id) + fields).len() <= MAX_FRAME_LEN,
    ensures
        spec_step(State::Status, id, fields, json) == Ok::<(State, Seq<u8>), ProtocolError>(
            (State::Status, Seq::empty()),
        ),
        spec_run(State::Status, packet_frame(id, fields) + rest, json) == (
            spec_run(State::Status, rest, json).0,
            spec_run(State::Status, rest, json).1,
            packet_frame(id, fields).len() + spec_run(State::Status, rest, json).2,
            spec_run(State::Status, rest, json).3,
        ),
{
    let f = packet_frame(id, fields);
    lemma_frame_round_trip(id, fields, rest, MAX_FRAME_LEN as nat);
    assert((f + rest).skip(f.len() as int) =~= rest);
    assert(Seq::<u8>::empty() + spec_run(State::Status, rest, json).1 =~= spec_run(
        State::Status,
        rest,
        json,
    ).1);
}

/// A handshake asking for the status phase followed at once, in the same
/// bytes, by a status request gets the status document: the phase change
/// takes effect before the second frame is read.
pub proof fn lemma_handshake_then_status(
    version: i32,
    address: Seq<char>,
    port: u16,
    json: Seq<char>,
)
    requires
        encode_utf8(address).len() <= crate::packets::handshake::MAX_ADDRESS_LEN,
    ensures
        spec_run(
            State::Handshake,
            packet_frame(0, encode_handshake(version, address, port, 1)) + packet_frame(
                0,
                Seq::empty(),
            ),
            json,
        ) == (
            State::Status,
            status_response_frame(json),
            packet_frame(0, encode_handshake(version, address, port, 1)).len() + packet_frame(
                0,
                Seq::empty(),
            ).len(),
            None::<ProtocolError>,
        ),
{
    let h = encode_handshake(version, address, port, 1);
    let hf = packet_frame(0, h);
    let sf = packet_frame(0, Seq::empty());
    lemma_varint_round_trip(version, Seq::empty());
    lemma_varint_round_trip(1, Seq::empty());
    lemma_varint_round_trip(0, Seq::empty());
    crate::varint::lemma_varint_round_trip(encode_utf8(address).len() as i32, Seq::empty());
    assert(vstd::arithmetic::power::pow(256, 2) == 65536) by {
        reveal_with_fuel(vstd::arithmetic::power::pow, 3);
    }
    crate::write::lemma_be_round_trip(port as nat, 2);
    assert(encode_string(address).len() <= 5 + 255);
    lemma_frame_round_trip(0, h, sf, MAX_FRAME_LEN as nat);
    lemma_handshake_round_trip(version, address, port, 1, Seq::empty());
    assert(h + Seq::<u8>::empty() =~= h);
    assert((hf + sf).skip(hf.len() as int) =~= sf);
    lemma_frame_round_trip(0, Seq::empty(), Seq::empty(), MAX_FRAME_LEN as nat);
    assert(sf + Seq::<u8>::empty() =~= sf);
    assert(encode_varint(0) + Seq::<u8>::empty() =~= encode_varint(0));
    let tail = sf.skip(sf.len() as int);
    assert(tail =~= Seq::<u8>::empty());
    assert(spec_frame(tail, MAX_FRAME_LEN as nat) == Some(None::<(i32, Seq<u8>, nat)>)) by {
        crate::varint::lemma_varint_end_from(tail, 5, 0);
    }
    let r3 = spec_run(State::Status, tail, json);
    assert(r3 == (State::Status, Seq::<u8>::empty(), 0nat, None::<ProtocolError>));
    assert(spec_step(State::Status, 0, Seq::empty(), json) == Ok::<(State, Seq<u8>), ProtocolError>(
        (State::Status, status_response_frame(json)),
    ));
    let r2 = spec_run(State::Status, sf, json);
    assert(status_response_frame(json) + Seq::<u8>::empty() =~= status_response_frame(json));
    assert(r2 == (State::Status, status_response_frame(json), sf.len(), None::<ProtocolError>));
    assert(spec_handshake(h) == Some((version, address, port, 1i32)));
    assert(spec_step(State::Handshake, 0, h, json) == Ok::<(State, Seq<u8>), ProtocolError>(
        (State::Status, Seq::empty()),
    ));
    assert(Seq::<u8>::empty() + status_response_frame(json) =~= status_response_frame(json));
}

} // verus!
