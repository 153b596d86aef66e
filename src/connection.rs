//! The connection multiplexer's logic: frames of the gateway session, the
//! request-id counter with the map of pending requests, and the information
//! objects that a server message carries.

use vstd::prelude::*;
use vstd::bytes::*;

use crate::packet::append_bytes;
use crate::scanner::{IOB, collect_iobs, iob_items, iob_matches, iob_start};
use crate::wire::{FC, Header, NodeAddress};

verus! {

pub const MAGIC_MESSAGE: u16 = 0x1234;
pub const MAGIC_RESULT: u16 = 0x5678;
pub const MAGIC_SERVER_MESSAGE: u16 = 0xABCD;
/// Port number that lets the gateway choose the port.
pub const PORT_AUTO: i32 = -1;
/// Bytes of a result record after its magic: msg_id, result.
pub const RESULT_LEN: usize = 4;
/// Bytes of a server message record after its magic: port, C, address,
/// payload length.
pub const SERVER_MESSAGE_LEN: usize = 12;

/// A message to or from a node.
#[derive(Clone, Debug)]
pub struct Message {
    pub port: i32,
    pub header: Header,
    pub payload: Vec<u8>,
}

/// A message without its payload.
#[derive(Clone, Copy, Debug)]
pub struct MessageHeader {
    pub port: i32,
    pub header: Header,
}

impl MessageHeader {
    pub fn from(value: &Message) -> (r: MessageHeader)
        ensures
            r.port == value.port,
            r.header == value.header,
    {
        MessageHeader { port: value.port, header: value.header }
    }
}

/// An information object with the message that carried it.
#[derive(Clone, Debug)]
pub struct IOBMessage {
    pub message: MessageHeader,
    pub iob: IOB,
}

/// Delivery result of a request.
#[derive(Clone, Copy, Debug, PartialEq, Eq, Structural)]
pub enum MessageResultCode {
    Delivered,
    NotDelivered,
    TimedOut,
    LinkDown,
    PortInvalid,
}

/// The result record that the gateway sends for a request.
#[derive(Clone, Copy, Debug, PartialEq, Eq, Structural)]
pub struct MessageResult {
    pub msg_id: u16,
    pub result: u16,
}

/// The result code of a numeric result, where it names one.
pub open spec fn result_code_of(v: u16) -> Option<MessageResultCode> {
    if v == 0 {
        Some(MessageResultCode::Delivered)
    } else if v == 1 {
        Some(MessageResultCode::NotDelivered)
    } else if v == 2 {
        Some(MessageResultCode::TimedOut)
    } else if v == 3 {
        Some(MessageResultCode::LinkDown)
    } else if v == 4 {
        Some(MessageResultCode::PortInvalid)
    } else {
        None
    }
}

impl MessageResult {
    pub fn result_code(&self) -> (r: Option<MessageResultCode>)
        ensures
            r == result_code_of(self.result),
    {
        match self.result {
            0 => Some(MessageResultCode::Delivered),
            1 => Some(MessageResultCode::NotDelivered),
            2 => Some(MessageResultCode::TimedOut),
            3 => Some(MessageResultCode::LinkDown),
            4 => Some(MessageResultCode::PortInvalid),
            _ => None,
        }
    }
}

/// The two frame classes that the gateway sends.
#[derive(Clone, Copy, Debug, PartialEq, Eq, Structural)]
pub enum FrameKind {
    Result,
    ServerMessage,
}

/// Violations of the session's framing; each ends the session.
#[derive(Clone, Copy, Debug, PartialEq, Eq, Structural)]
pub enum ProtocolError {
    UnknownMagic(u16),
    PayloadTooLong,
}

/// The class of an inbound frame by its magic; any other magic is a
/// protocol error.
pub fn frame_kind(magic: u16) -> (r: Result<FrameKind, ProtocolError>)
    ensures
        magic == MAGIC_RESULT ==> r == Ok::<FrameKind, ProtocolError>(FrameKind::Result),
        magic == MAGIC_SERVER_MESSAGE ==> r == Ok::<FrameKind, ProtocolError>(
            FrameKind::ServerMessage,
        ),
        magic != MAGIC_RESULT && magic != MAGIC_SERVER_MESSAGE ==> r == Err::<
            FrameKind,
            ProtocolError,
        >(ProtocolError::UnknownMagic(magic)),
{
    if magic == MAGIC_RESULT {
        Ok(FrameKind::Result)
    } else if magic == MAGIC_SERVER_MESSAGE {
        Ok(FrameKind::ServerMessage)
    } else {
        Err(ProtocolError::UnknownMagic(magic))
    }
}

/// The magic of a frame from its two little-endian bytes.
pub fn read_magic(b: &[u8]) -> (r: u16)
    requires
        b@.len() == 2,
    ensures
        r == spec_u16_from_le_bytes(b@),
{
    u16_from_le_bytes(b)
}

/// Decodes a result record.
pub fn decode_message_result(b: &[u8]) -> (r: MessageResult)
    requires
        b@.len() == RESULT_LEN,
    ensures
        r.msg_id == spec_u16_from_le_bytes(b@.subrange(0, 2)),
        r.result == spec_u16_from_le_bytes(b@.subrange(2, 4)),
{
    MessageResult {
        msg_id: u16_from_le_bytes(vstd::slice::slice_subrange(b, 0, 2)),
        result: u16_from_le_bytes(vstd::slice::slice_subrange(b, 2, 4)),
    }
}

/// The port, link header and payload length of a server message record.
pub fn decode_server_message(b: &[u8]) -> (r: (i32, Header, u8))
    requires
        b@.len() == SERVER_MESSAGE_LEN,
    ensures
        r.0 == spec_u32_from_le_bytes(b@.subrange(0, 4)) as i32,
        r.1.c == b@[4],
        r.1.address@ == b@.subrange(5, 11),
        r.2 == b@[11],
{
    let port = u32_from_le_bytes(vstd::slice::slice_subrange(b, 0, 4)) as i32;
    let address: NodeAddress = [b[5], b[6], b[7], b[8], b[9], b[10]];
    proof {
        assert(address@ =~= b@.subrange(5, 11));
    }
    (port, Header { c: b[4], address }, b[11])
}

/// The bytes of a request frame: magic, id, port, link header, payload
/// length, payload; all little-endian and packed.
pub open spec fn request_frame(id: u16, port: i32, header: Header, payload: Seq<u8>) -> Seq<u8> {
    spec_u16_to_le_bytes(MAGIC_MESSAGE) + spec_u16_to_le_bytes(id) + spec_u32_to_le_bytes(
        port as u32,
    ) + seq![header.c] + header.address@ + seq![payload.len() as u8] + payload
}

/// Encodes the request frame of `msg` under the request id `id`; the
/// payload length must fit its byte.
pub fn encode_message(id: u16, msg: &Message) -> (r: Result<Vec<u8>, ProtocolError>)
    ensures
        msg.payload@.len() > 255 ==> r == Err::<Vec<u8>, ProtocolError>(
            ProtocolError::PayloadTooLong,
        ),
        msg.payload@.len() <= 255 ==> r is Ok && r->Ok_0@ == request_frame(
            id,
            msg.port,
            msg.header,
            msg.payload@,
        ),
{
    if msg.payload.len() > 255 {
        return Err(ProtocolError::PayloadTooLong);
    }
    let mut out = u16_to_le_bytes(MAGIC_MESSAGE);
    let idb = u16_to_le_bytes(id);
    append_bytes(&mut out, idb.as_slice());
    let portb = u32_to_le_bytes(msg.port as u32);
    append_bytes(&mut out, portb.as_slice());
    out.push(msg.header.c);
    append_bytes(&mut out, msg.header.address.as_slice());
    out.push(msg.payload.len() as u8);
    append_bytes(&mut out, msg.payload.as_slice());
    Ok(out)
}

/// A primary message to `address` with the function code `fc`.
pub fn prm_message(fc: FC, address: &NodeAddress, payload: Vec<u8>) -> (r: Message)
    ensures
        r.port == PORT_AUTO,
        r.header.address == *address,
        r.header.spec_prm(),
        r.header.spec_fc() == Some(fc),
        r.header.c == crate::wire::BIT_PRM + fc.spec_value(),
        r.payload@ == payload@,
{
    Message { port: PORT_AUTO, header: Header { c: Header::prm_control(fc), address: *address }, payload }
}

/// Whether a server message's payload is parsed for information objects:
/// a primary message of SendConfirm or SendNoreply.
pub open spec fn carries_iobs(h: Header) -> bool {
    h.spec_prm() && (h.spec_fc() == Some(FC::PrmSendConfirm) || h.spec_fc() == Some(
        FC::PrmSendNoreply,
    ))
}

/// The information objects of a server message: those of its payload up
/// to the first error, where the message carries any.
pub fn server_message_iobs(header: &Header, payload: &[u8]) -> (r: Vec<IOB>)
    ensures
        !carries_iobs(*header) ==> r@.len() == 0,
        carries_iobs(*header) ==> r@.len() == iob_items(iob_start(), payload@).len() && forall|
            i: int,
        |
            0 <= i < r@.len() ==> iob_matches(#[trigger] r@[i], iob_items(iob_start(), payload@)[i]),
{
    if header.prm() {
        match header.fc() {
            Some(FC::PrmSendConfirm) | Some(FC::PrmSendNoreply) => {
                return collect_iobs(payload);
            },
            _ => {},
        }
    }
    Vec::new()
}

/// Request-id counter and pending requests: the waiter of each request
/// that has no result yet, by request id.
pub struct SharedState<W> {
    id_gen: u16,
    ids: Vec<u16>,
    waiters: Vec<W>,
}

impl<W> SharedState<W> {
    /// The pending requests: request id to waiter.
    pub closed spec fn view(&self) -> Map<u16, W> {
        Map::new(
            |id: u16| self.ids@.contains(id),
            |id: u16| self.waiters@[self.ids@.index_of(id)],
        )
    }

    /// The pending ids, in the order in which they are held.
    pub closed spec fn id_seq(&self) -> Seq<u16> {
        self.ids@
    }

    /// The id that the next request gets.
    pub closed spec fn next_id(&self) -> u16 {
        self.id_gen
    }

    /// Each pending id occurs once, with one waiter.
    pub closed spec fn wf(&self) -> bool {
        self.ids@.len() == self.waiters@.len() && self.ids@.no_duplicates()
    }

    pub fn new() -> (r: Self)
        ensures
            r.wf(),
            r@ == Map::<u16, W>::empty(),
            r.next_id() == 0,
    {
        let r = SharedState { id_gen: 0, ids: Vec::new(), waiters: Vec::new() };
        proof {
            assert(r@ =~= Map::<u16, W>::empty());
        }
        r
    }

    /// Takes the next request id; the counter wraps at 2^16.
    pub fn reserve_id(&mut self) -> (r: u16)
        requires
            old(self).wf(),
        ensures
            final(self).wf(),
            r == old(self).next_id(),
            final(self).next_id() == (old(self).next_id() + 1) % 65536,
            final(self)@ == old(self)@,
    {
        let id = self.id_gen;
        self.id_gen = self.id_gen.wrapping_add(1);
        proof {
            assert(self@ =~= old(self)@);
        }
        id
    }

    fn find(&self, id: u16) -> (r: Option<usize>)
        requires
            self.wf(),
        ensures
            r is Some ==> r->Some_0 < self.ids@.len() && self.ids@[r->Some_0 as int] == id
                && self.ids@.index_of(id) == r->Some_0,
            r is None ==> !self.ids@.contains(id),
    {
        let mut i: usize = 0;
        while i < self.ids.len()
            invariant
                self.wf(),
                0 <= i <= self.ids@.len(),
                forall|j: int| 0 <= j < i ==> self.ids@[j] != id,
            decreases self.ids@.len() - i,
        {
            if self.ids[i] == id {
                proof {
                    self.ids@.index_of_first_ensures(id);
                    assert(self.ids@.contains(id));
                    let k = self.ids@.index_of(id);
                    assert(self.ids@[k] == id);
                    assert(k == i as int);
                }
                return Some(i);
            }
            i = i + 1;
        }
        None
    }

    /// Registers the waiter of request `id`; gives back a waiter that `id`
    /// had before, which then gets no result.
    pub fn register(&mut self, id: u16, waiter: W) -> (r: Option<W>)
        requires
            old(self).wf(),
        ensures
            final(self).wf(),
            final(self)@ == old(self)@.insert(id, waiter),
            final(self).next_id() == old(self).next_id(),
            r == (if old(self)@.dom().contains(id) {
                Some(old(self)@[id])
            } else {
                None
            }),
    {
        let prev = self.take(id);
        let ghost t = self.ids@;
        let ghost tw = self.waiters@;
        let ghost mid = self@;
        proof {
            assert forall|k: u16| #[trigger] mid.dom().contains(k) <==> t.contains(k) by {}
        }
        self.ids.push(id);
        self.waiters.push(waiter);
        proof {
            let s = self.ids@;
            assert(s.drop_last() =~= t);
            assert(mid == old(self)@.remove(id));
            assert forall|x: int, y: int| 0 <= x < y < s.len() implies s[x] != s[y] by {
                if y == s.len() - 1 {
                    assert(t[x] == s[x]);
                    assert(t.contains(s[x]));
                } else {
                    assert(t[x] == s[x]);
                    assert(t[y] == s[y]);
                }
            }
            assert forall|k: u16| #[trigger] s.contains(k) <==> (k == id || t.contains(k)) by {
                if s.contains(k) && k != id {
                    let j = choose|j: int| 0 <= j < s.len() && s[j] == k;
                    assert(t[j] == k);
                }
                if t.contains(k) {
                    let j = choose|j: int| 0 <= j < t.len() && t[j] == k;
                    assert(s[j] == k);
                }
                if k == id {
                    assert(s[s.len() - 1] == id);
                }
            }
            assert forall|k: u16| #[trigger] self@.dom().contains(k) implies self@[k] == old(self)@.insert(id, waiter)[k] by {
                s.index_of_first_ensures(k);
                let j = s.index_of(k);
                if k == id {
                    if j < s.len() - 1 {
                        assert(t[j] == id);
                        assert(t.contains(id));
                    }
                    assert(j == s.len() - 1);
                } else {
                    assert(t.contains(k));
                    t.index_of_first_ensures(k);
                    let j2 = t.index_of(k);
                    assert(s[j2] == k);
                    assert(j <= j2);
                    assert(j < s.len() - 1);
                    assert(t[j] == k);
                    assert(j2 <= j);
                    assert(self.waiters@[j] == tw[j]);
                    assert(mid[k] == tw[j2]);
                }
            }
            assert forall|k: u16| #[trigger] self@.dom().contains(k) <==> old(self)@.insert(id, waiter).dom().contains(k) by {
                assert(self@.dom().contains(k) <==> s.contains(k));
                if k != id {
                    assert(old(self)@.dom().contains(k) <==> mid.dom().contains(k));
                }
            }
            assert(self@ =~= old(self)@.insert(id, waiter));
        }
        prev
    }

    /// Takes the waiter of request `id`, if one is pending: the result of
    /// `id` goes to it and to no other.
    pub fn take(&mut self, id: u16) -> (r: Option<W>)
        requires
            old(self).wf(),
        ensures
            final(self).wf(),
            final(self)@ == old(self)@.remove(id),
            final(self).next_id() == old(self).next_id(),
            !final(self).id_seq().contains(id),
            r == (if old(self)@.dom().contains(id) {
                Some(old(self)@[id])
            } else {
                None
            }),
    {
        match self.find(id) {
            None => {
                proof {
                    assert(self@ =~= old(self)@.remove(id));
                }
                None
            },
            Some(i) => {
                let ghost s = self.ids@;
                self.ids.remove(i);
                let w = self.waiters.remove(i);
                proof {
                    let t = self.ids@;
                    assert(t =~= s.remove(i as int));
                    assert forall|x: int, y: int| 0 <= x < y < t.len() implies t[x] != t[y] by {
                        let ox = if x < i { x } else { x + 1 };
                        let oy = if y < i { y } else { y + 1 };
                        assert(t[x] == s[ox]);
                        assert(t[y] == s[oy]);
                    }
                    assert(!t.contains(id)) by {
                        if t.contains(id) {
                            let j = choose|j: int| 0 <= j < t.len() && t[j] == id;
                            let oj = if j < i { j } else { j + 1 };
                            assert(s[oj] == id);
                        }
                    }
                    assert forall|k: u16| self@.dom().contains(k) <==> old(self)@.remove(id).dom().contains(k) by {
                        if t.contains(k) {
                            let j = choose|j: int| 0 <= j < t.len() && t[j] == k;
                            let oj = if j < i { j } else { j + 1 };
                            assert(s[oj] == k);
                        }
                        if k != id && s.contains(k) {
                            let j = choose|j: int| 0 <= j < s.len() && s[j] == k;
                            assert(j != i);
                            let nj = if j < i { j } else { j - 1 };
                            assert(t[nj] == k);
                        }
                    }
                    assert forall|k: u16| #[trigger] self@.dom().contains(k) implies self@[k] == old(self)@.remove(id)[k] by {
                        t.index_of_first_ensures(k);
                        s.index_of_first_ensures(k);
                        let j = t.index_of(k);
                        let oj = if j < i { j } else { j + 1 };
                        assert(s[oj] == k);
                        let sj = s.index_of(k);
                        assert(sj == oj);
                        assert(self.waiters@[j] == old(self).waiters@[oj]);
                    }
                    assert(self@ =~= old(self)@.remove(id));
                }
                Some(w)
            },
        }
    }

    /// Reserves the next id for `msg` and encodes its frame; a payload that
    /// does not fit its length byte is refused and reserves nothing.
    pub fn prepare_send(&mut self, msg: &Message) -> (r: Result<(u16, Vec<u8>), ProtocolError>)
        requires
            old(self).wf(),
        ensures
            final(self).wf(),
            final(self)@ == old(self)@,
            msg.payload@.len() > 255 ==> r == Err::<(u16, Vec<u8>), ProtocolError>(
                ProtocolError::PayloadTooLong,
            ) && final(self).next_id() == old(self).next_id(),
            msg.payload@.len() <= 255 ==> {
                &&& r is Ok
                &&& r->Ok_0.0 == old(self).next_id()
                &&& r->Ok_0.1@ == request_frame(old(self).next_id(), msg.port, msg.header, msg.payload@)
                &&& final(self).next_id() == (old(self).next_id() + 1) % 65536
            },
    {
        if msg.payload.len() > 255 {
            return Err(ProtocolError::PayloadTooLong);
        }
        let id = self.reserve_id();
        match encode_message(id, msg) {
            Ok(frame) => Ok((id, frame)),
            Err(e) => Err(e),
        }
    }
}

/// A result routed after `register` reaches the waiter registered for its
/// id and no other, and only once: the id is then no longer pending.
pub proof fn lemma_result_routing<W>(pending: Map<u16, W>, id: u16, waiter: W, other: u16)
    requires
        other != id,
    ensures
        pending.insert(id, waiter).dom().contains(id),
        pending.insert(id, waiter)[id] == waiter,
        !pending.insert(id, waiter).remove(id).dom().contains(id),
        pending.insert(id, waiter).remove(id).remove(other) == pending.remove(id).remove(other),
{
    assert(pending.insert(id, waiter).remove(id).remove(other) =~= pending.remove(id).remove(other));
}

} // verus!
