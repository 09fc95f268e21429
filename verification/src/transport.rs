//! The transport, without the socket.
//!
//! The transport keeps what is to be written and what was read. A request
//! that is sent becomes one datagram: the bytes of the request and the
//! descriptors that travel beside them, to be written in one call. Bytes
//! that were read are cut into messages from the front; what is left of an
//! unfinished message waits for the next read. The caller moves the
//! datagrams to the socket and the socket's bytes to the transport, and
//! tells the transport when the socket has failed; from then on the
//! transport refuses to send and to receive.

use std::collections::VecDeque;
use vstd::prelude::*;
use vstd::slice::slice_subrange;
use crate::ancillary::{descriptors, with_descriptors};
use crate::endian::{get_word, word_value, ByteOrder};
use crate::error::WaylandError;
use crate::ident::{event_schema, schema_of_event, IdTable, IdentManager};
use crate::wire::{
    append_bytes, copy_of, declared_len, declared_opcode, decode_message, lemma_word_halves,
    ArgValue, MessageValue, WireArgument, WireMessage,
};

verus! {

/// What one write puts on the socket: bytes, and the descriptors that
/// travel beside them.
#[derive(Debug, Clone, PartialEq, Eq)]
pub struct Datagram {
    pub bytes: Vec<u8>,
    pub fds: Vec<i32>,
}

/// What a datagram is, apart from how it is stored.
pub struct DatagramValue {
    pub bytes: Seq<u8>,
    pub fds: Seq<i32>,
}

impl View for Datagram {
    type V = DatagramValue;

    open spec fn view(&self) -> DatagramValue {
        DatagramValue { bytes: self.bytes@, fds: self.fds@ }
    }
}

/// The datagram that carries a request.
pub open spec fn datagram_of(msg: MessageValue, order: ByteOrder) -> DatagramValue {
    DatagramValue { bytes: msg.encoding(order), fds: descriptors(msg.args) }
}

/// What stands at the front of the bytes that were read.
pub enum Front {
    /// Less than a whole message: its header or its end is yet to come.
    Incomplete,
    /// A header that declares a length shorter than a header.
    Bad,
    /// A whole message of the given length.
    Ready(nat),
}

/// What stands at the front of `buf`.
pub open spec fn front(buf: Seq<u8>, order: ByteOrder) -> Front {
    if buf.len() < 8 {
        Front::Incomplete
    } else {
        let declared = declared_len(word_value(buf.subrange(4, 8), order));
        if declared < 8 {
            Front::Bad
        } else if buf.len() < declared {
            Front::Incomplete
        } else {
            Front::Ready(declared as nat)
        }
    }
}

/// The object that the header of `frame` names.
pub open spec fn frame_sender(frame: Seq<u8>, order: ByteOrder) -> u32 {
    word_value(frame.subrange(0, 4), order)
}

/// The opcode that the header of `frame` holds.
pub open spec fn frame_opcode(frame: Seq<u8>, order: ByteOrder) -> usize {
    declared_opcode(word_value(frame.subrange(4, 8), order)) as usize
}

/// A message as it is kept when its arguments cannot be told apart: all
/// that follows the header as one array of bytes.
pub open spec fn raw_event(frame: Seq<u8>, order: ByteOrder) -> MessageValue {
    MessageValue {
        sender_id: frame_sender(frame, order),
        opcode: frame_opcode(frame, order),
        args: seq![ArgValue::Arr(frame.skip(8))],
    }
}

/// The event that one whole message stands for, and the number of
/// descriptors it takes. The arguments are read under the schema of the
/// sender's kind and get their descriptors from the front of `fds`; where
/// the bytes do not fit the schema, or descriptors are missing, the event
/// is kept raw and takes none.
pub open spec fn read_frame(
    frame: Seq<u8>,
    fds: Seq<i32>,
    owners: IdTable,
    order: ByteOrder,
) -> (MessageValue, nat) {
    let schema = event_schema(owners.owner(frame_sender(frame, order)), frame_opcode(frame, order));
    match decode_message(frame, schema, order) {
        Ok(msg) => if descriptors(msg.args).len() <= fds.len() {
            (
                MessageValue {
                    sender_id: msg.sender_id,
                    opcode: msg.opcode,
                    args: with_descriptors(msg.args, fds),
                },
                descriptors(msg.args).len(),
            )
        } else {
            (raw_event(frame, order), 0)
        },
        Err(_) => (raw_event(frame, order), 0),
    }
}

/// What comes of a run over the bytes that were read.
pub struct Intake {
    /// The events of the whole messages, in the order of the bytes.
    pub events: Seq<MessageValue>,
    /// The bytes behind the last whole message.
    pub rest: Seq<u8>,
    /// The descriptors that no event has taken.
    pub fds: Seq<i32>,
    /// Whether the run ended at a header that declares an impossible length.
    pub bad: bool,
}

/// Cuts whole messages off the front of `buf` for as long as there are any.
pub open spec fn intake(buf: Seq<u8>, fds: Seq<i32>, owners: IdTable, order: ByteOrder) -> Intake
    decreases buf.len(),
{
    match front(buf, order) {
        Front::Incomplete => Intake { events: Seq::empty(), rest: buf, fds, bad: false },
        Front::Bad => Intake { events: Seq::empty(), rest: buf, fds, bad: true },
        Front::Ready(n) => {
            let (event, taken) = read_frame(buf.take(n as int), fds, owners, order);
            let later = intake(buf.skip(n as int), fds.skip(taken as int), owners, order);
            Intake {
                events: seq![event] + later.events,
                rest: later.rest,
                fds: later.fds,
                bad: later.bad,
            }
        },
    }
}

/// The state of a transport.
pub struct TransportState {
    /// The byte order of the connection.
    pub order: ByteOrder,
    /// Whether the socket is still good.
    pub connected: bool,
    /// The datagrams that wait to be written, oldest first.
    pub outgoing: Seq<DatagramValue>,
    /// The bytes of a message whose end has not been read yet.
    pub pending: Seq<u8>,
    /// The descriptors that were read and that no event has taken.
    pub pending_fds: Seq<i32>,
    /// The events that wait to be handled, oldest first.
    pub events: Seq<MessageValue>,
}

impl TransportState {
    /// The state of a transport on a good socket, with nothing to write and
    /// nothing read.
    pub open spec fn fresh(order: ByteOrder) -> TransportState {
        TransportState {
            order,
            connected: true,
            outgoing: Seq::empty(),
            pending: Seq::empty(),
            pending_fds: Seq::empty(),
            events: Seq::empty(),
        }
    }

    /// What sending `msg` returns: refused after the socket has failed, and
    /// where the request is too long for a header.
    pub open spec fn send_outcome(self, msg: MessageValue) -> Result<(), WaylandError> {
        if !self.connected {
            Err(WaylandError::Disconnected)
        } else if !msg.fits() {
            Err(WaylandError::RecvLenBad)
        } else {
            Ok(())
        }
    }

    /// The state after `msg` was sent: one datagram more waits to be
    /// written. Where sending is refused, the state is the same.
    pub open spec fn send(self, msg: MessageValue) -> TransportState {
        if self.send_outcome(msg) is Ok {
            TransportState { outgoing: self.outgoing.push(datagram_of(msg, self.order)), ..self }
        } else {
            self
        }
    }

    /// The run over the bytes at hand once `bytes` and `fds` have come in.
    pub open spec fn run(self, owners: IdTable, bytes: Seq<u8>, fds: Seq<i32>) -> Intake {
        intake(self.pending + bytes, self.pending_fds + fds, owners, self.order)
    }

    /// What receiving returns: the number of new events; the length failure
    /// where the run ended at an impossible header; refused after the
    /// socket has failed.
    pub open spec fn receive_outcome(self, owners: IdTable, bytes: Seq<u8>, fds: Seq<i32>) -> Result<
        usize,
        WaylandError,
    > {
        if !self.connected {
            Err(WaylandError::Disconnected)
        } else if self.run(owners, bytes, fds).bad {
            Err(WaylandError::RecvLenBad)
        } else {
            Ok(self.run(owners, bytes, fds).events.len() as usize)
        }
    }

    /// The state after `bytes` and `fds` were received: the events of all
    /// whole messages stand at the end of the queue, and what is left of
    /// the bytes and descriptors waits. After the socket has failed, the
    /// state is the same.
    pub open spec fn receive(self, owners: IdTable, bytes: Seq<u8>, fds: Seq<i32>) -> TransportState {
        if self.connected {
            let run = self.run(owners, bytes, fds);
            TransportState {
                events: self.events + run.events,
                pending: run.rest,
                pending_fds: run.fds,
                ..self
            }
        } else {
            self
        }
    }
}

/// One end of the connection: what is to be written and what was read.
#[derive(Debug)]
pub struct MessageManager {
    order: ByteOrder,
    connected: bool,
    outbox: VecDeque<Datagram>,
    inbuf: Vec<u8>,
    infds: Vec<i32>,
    q: VecDeque<WireMessage>,
}

impl View for MessageManager {
    type V = TransportState;

    closed spec fn view(&self) -> TransportState {
        TransportState {
            order: self.order,
            connected: self.connected,
            outgoing: self.outbox@.map_values(|d: Datagram| d@),
            pending: self.inbuf@,
            pending_fds: self.infds@,
            events: self.q@.map_values(|m: WireMessage| m@),
        }
    }
}

/// Reads one whole message as an event.
fn read_one(frame: &[u8], fds: &[i32], owners: &IdentManager, order: ByteOrder) -> (result: (
    WireMessage,
    usize,
))
    requires
        frame@.len() >= 8,
    ensures
        result.0@ == read_frame(frame@, fds@, owners@, order).0,
        result.1 == read_frame(frame@, fds@, owners@, order).1,
        result.1 <= fds@.len(),
{
    let sender_id = get_word(frame, 0, order);
    let word = get_word(frame, 4, order);
    proof {
        lemma_word_halves(word);
    }
    let opcode: usize = (word & 0xFFFF) as usize;
    let schema = schema_of_event(owners.owner_of(sender_id), opcode);
    match WireMessage::decode(frame, schema.as_slice(), order) {
        Ok(msg) => {
            let mut msg = msg;
            match msg.attach_descriptors(fds) {
                Some(taken) => {
                    return (msg, taken);
                },
                None => {},
            }
        },
        Err(_) => {},
    }
    let payload = slice_subrange(frame, 8, frame.len());
    assert(payload@ =~= frame@.skip(8));
    let mut args: Vec<WireArgument> = Vec::new();
    args.push(WireArgument::Arr(copy_of(payload)));
    let raw = WireMessage { sender_id, opcode, args };
    assert(raw@.args =~= seq![ArgValue::Arr(frame@.skip(8))]);
    (raw, 0)
}

impl MessageManager {
    /// A transport on a good socket, with nothing to write and nothing read.
    pub fn new(order: ByteOrder) -> (transport: Self)
        ensures
            transport@ == TransportState::fresh(order),
    {
        let transport = MessageManager {
            order,
            connected: true,
            outbox: VecDeque::new(),
            inbuf: Vec::new(),
            infds: Vec::new(),
            q: VecDeque::new(),
        };
        assert(transport@.outgoing =~= Seq::empty());
        assert(transport@.events =~= Seq::empty());
        transport
    }

    /// The byte order of the connection.
    pub fn byte_order(&self) -> (order: ByteOrder)
        ensures
            order == self@.order,
    {
        self.order
    }

    /// Whether the socket is still good.
    pub fn is_connected(&self) -> (b: bool)
        ensures
            b == self@.connected,
    {
        self.connected
    }

    /// Records that the socket has failed. Nothing is sent or received
    /// after that.
    pub fn close(&mut self)
        ensures
            final(self)@ == (TransportState { connected: false, ..old(self)@ }),
    {
        self.connected = false;
    }

    /// Encodes a request and queues it, with its descriptors, as the next
    /// datagram to write. Refused, with nothing changed, after the socket
    /// has failed or where the request is too long for a header.
    pub fn send_request(&mut self, msg: &WireMessage) -> (result: Result<(), WaylandError>)
        ensures
            result == old(self)@.send_outcome(msg@),
            final(self)@ == old(self)@.send(msg@),
    {
        if !self.connected {
            return Err(WaylandError::Disconnected);
        }
        match msg.encode(self.order) {
            Ok(bytes) => {
                let fds = msg.descriptors();
                let ghost before = self.outbox@;
                self.outbox.push_back(Datagram { bytes, fds });
                assert(self@.outgoing =~= old(self)@.outgoing.push(
                    datagram_of(msg@, old(self)@.order),
                ));
                Ok(())
            },
            Err(e) => Err(e),
        }
    }

    /// Takes the oldest datagram that waits to be written.
    pub fn next_outgoing(&mut self) -> (datagram: Option<Datagram>)
        ensures
            match datagram {
                Some(d) => old(self)@.outgoing.len() > 0 && d@ == old(self)@.outgoing[0]
                    && final(self)@ == (TransportState {
                    outgoing: old(self)@.outgoing.skip(1),
                    ..old(self)@
                }),
                None => old(self)@.outgoing.len() == 0 && final(self)@ == old(self)@,
            },
    {
        let datagram = self.outbox.pop_front();
        proof {
            if datagram is Some {
                assert(self@.outgoing =~= old(self)@.outgoing.skip(1));
            } else {
                assert(self@.outgoing =~= old(self)@.outgoing);
            }
        }
        datagram
    }

    /// Takes the oldest event that waits to be handled.
    pub fn pop_event(&mut self) -> (event: Option<WireMessage>)
        ensures
            match event {
                Some(e) => old(self)@.events.len() > 0 && e@ == old(self)@.events[0]
                    && final(self)@ == (TransportState {
                    events: old(self)@.events.skip(1),
                    ..old(self)@
                }),
                None => old(self)@.events.len() == 0 && final(self)@ == old(self)@,
            },
    {
        let event = self.q.pop_front();
        proof {
            if event is Some {
                assert(self@.events =~= old(self)@.events.skip(1));
            } else {
                assert(self@.events =~= old(self)@.events);
            }
        }
        event
    }

    /// The number of events that wait to be handled.
    pub fn queued(&self) -> (n: usize)
        ensures
            n == self@.events.len(),
    {
        self.q.len()
    }
}


/// The events of a later run, behind those of an earlier one.
pub open spec fn later(done: Seq<MessageValue>, run: Intake) -> Intake {
    Intake { events: done + run.events, rest: run.rest, fds: run.fds, bad: run.bad }
}

impl MessageManager {
    /// Takes in what one read has brought: `bytes` and the descriptors that
    /// came beside them. Every whole message at the front of the bytes
    /// becomes an event at the end of the queue, in the order of the bytes;
    /// what is left of an unfinished message waits for the next read. A
    /// header that declares a length shorter than a header ends the run
    /// with the length failure; it stays at the front of the bytes, so
    /// that every later call fails in the same way.
    /// Refused, with nothing changed, after the socket has failed.
    pub fn get_events(&mut self, owners: &IdentManager, bytes: &[u8], fds: &[i32]) -> (result:
        Result<usize, WaylandError>)
        ensures
            result == old(self)@.receive_outcome(owners@, bytes@, fds@),
            final(self)@ == old(self)@.receive(owners@, bytes@, fds@),
    {
        if !self.connected {
            return Err(WaylandError::Disconnected);
        }
        let order = self.order;
        append_bytes(&mut self.inbuf, bytes);
        let mut k: usize = 0;
        while k < fds.len()
            invariant
                k <= fds@.len(),
                self.infds@ == old(self).infds@ + fds@.take(k as int),
                self.inbuf@ == old(self).inbuf@ + bytes@,
                self.q@ == old(self).q@,
                self.outbox@ == old(self).outbox@,
                self.order == old(self).order,
                self.connected == old(self).connected,
            decreases fds@.len() - k,
        {
            self.infds.push(fds[k]);
            k += 1;
            assert(self.infds@ =~= old(self).infds@ + fds@.take(k as int));
        }
        assert(fds@.take(k as int) =~= fds@);
        let ghost buf = self.inbuf@;
        let ghost all_fds = self.infds@;
        let ghost whole = intake(buf, all_fds, owners@, order);
        let ghost mut done: Seq<MessageValue> = Seq::empty();
        let len = self.inbuf.len();
        let fd_len = self.infds.len();
        let mut off: usize = 0;
        let mut fd_off: usize = 0;
        let mut count: usize = 0;
        let mut bad = false;
        let mut running = true;
        assert(buf.skip(0) =~= buf);
        assert(all_fds.skip(0) =~= all_fds);
        assert(later(done, whole).events =~= whole.events);
        while running
            invariant
                self.inbuf@ == buf,
                self.infds@ == all_fds,
                len == buf.len(),
                fd_len == all_fds.len(),
                off <= len,
                fd_off <= fd_len,
                count == done.len(),
                count <= off,
                self.order == order,
                self.connected == old(self).connected,
                self.outbox@ == old(self).outbox@,
                self@.events == old(self)@.events + done,
                whole == intake(buf, all_fds, owners@, order),
                whole == later(
                    done,
                    intake(buf.skip(off as int), all_fds.skip(fd_off as int), owners@, order),
                ),
                running ==> !bad,
                !running ==> (if bad {
                    front(buf.skip(off as int), order) is Bad
                } else {
                    front(buf.skip(off as int), order) is Incomplete
                }),
            decreases len - off, running as int,
        {
            let ghost tail = buf.skip(off as int);
            let avail = len - off;
            if avail < 8 {
                running = false;
            } else {
                let word = get_word(self.inbuf.as_slice(), off + 4, order);
                assert(buf.subrange(off + 4, off + 8) =~= tail.subrange(4, 8));
                proof {
                    lemma_word_halves(word);
                }
                let declared: usize = (word >> 16) as usize;
                if declared < 8 {
                    bad = true;
                    running = false;
                } else if avail < declared {
                    running = false;
                } else {
                    let frame = slice_subrange(self.inbuf.as_slice(), off, off + declared);
                    let spare = slice_subrange(self.infds.as_slice(), fd_off, fd_len);
                    assert(frame@ =~= tail.take(declared as int));
                    assert(spare@ =~= all_fds.skip(fd_off as int));
                    let (event, taken) = read_one(frame, spare, owners, order);
                    let ghost events_before = self@.events;
                    proof {
                        let next = intake(
                            tail.skip(declared as int),
                            all_fds.skip(fd_off as int).skip(taken as int),
                            owners@,
                            order,
                        );
                        assert(tail.skip(declared as int) =~= buf.skip(off + declared));
                        assert(all_fds.skip(fd_off as int).skip(taken as int) =~= all_fds.skip(
                            fd_off + taken,
                        ));
                        assert(done + (seq![event@] + next.events) =~= done.push(event@)
                            + next.events);
                        done = done.push(event@);
                    }
                    self.q.push_back(event);
                    assert(self@.events =~= events_before.push(event@));
                    assert(self@.events =~= old(self)@.events + done);
                    off += declared;
                    fd_off += taken;
                    count += 1;
                }
            }
        }
        let rest = self.inbuf.split_off(off);
        self.inbuf = rest;
        let rest_fds = self.infds.split_off(fd_off);
        self.infds = rest_fds;
        assert(self.inbuf@ =~= buf.skip(off as int));
        assert(self.infds@ =~= all_fds.skip(fd_off as int));
        assert(self@.events =~= old(self)@.events + whole.events);
        assert(self@.outgoing =~= old(self)@.outgoing);
        if bad {
            Err(WaylandError::RecvLenBad)
        } else {
            Ok(count)
        }
    }
}

/// More bytes behind the bytes at hand do not change what the bytes at hand
/// gave: a run over both gives the events of a run over the first, and
/// then those of a run over what the first run left and the new bytes.
pub proof fn lemma_intake_in_pieces(
    buf: Seq<u8>,
    more: Seq<u8>,
    fds: Seq<i32>,
    owners: IdTable,
    order: ByteOrder,
)
    ensures
        ({
            let first = intake(buf, fds, owners, order);
            intake(buf + more, fds, owners, order) == later(
                first.events,
                intake(first.rest + more, first.fds, owners, order),
            )
        }),
    decreases buf.len(),
{
    let first = intake(buf, fds, owners, order);
    let whole = intake(buf + more, fds, owners, order);
    match front(buf, order) {
        Front::Ready(n) => {
            let joined = buf + more;
            assert(joined.subrange(4, 8) =~= buf.subrange(4, 8));
            assert(front(joined, order) == Front::Ready(n));
            assert(joined.take(n as int) =~= buf.take(n as int));
            assert(joined.skip(n as int) =~= buf.skip(n as int) + more);
            let (event, taken) = read_frame(buf.take(n as int), fds, owners, order);
            lemma_intake_in_pieces(buf.skip(n as int), more, fds.skip(taken as int), owners, order);
            let next = intake(buf.skip(n as int), fds.skip(taken as int), owners, order);
            let last = intake(next.rest + more, next.fds, owners, order);
            assert(seq![event] + (next.events + last.events) =~= (seq![event] + next.events)
                + last.events);
        },
        _ => {
            assert(first.events + whole.events =~= whole.events);
        },
    }
}

/// How the stream is cut into reads does not matter: receiving bytes in
/// two reads leaves the transport as receiving them in one. (The
/// descriptors are taken to come with the first read.)
pub proof fn lemma_receive_in_pieces(
    state: TransportState,
    owners: IdTable,
    first: Seq<u8>,
    second: Seq<u8>,
    fds: Seq<i32>,
)
    ensures
        state.receive(owners, first, fds).receive(owners, second, Seq::empty()) == state.receive(
            owners,
            first + second,
            fds,
        ),
{
    if state.connected {
        let buf = state.pending + first;
        let all_fds = state.pending_fds + fds;
        lemma_intake_in_pieces(buf, second, all_fds, owners, state.order);
        let one = intake(buf, all_fds, owners, state.order);
        let two = intake(one.rest + second, one.fds, owners, state.order);
        assert(buf + second =~= state.pending + (first + second));
        assert(one.fds + Seq::<i32>::empty() =~= one.fds);
        assert((state.events + one.events) + two.events =~= state.events + (one.events
            + two.events));
    }
}

} // verus!
