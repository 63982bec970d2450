//! The byte stream: buffers at both ends and the packets between them.

use crate::byte_queue::copy_front;
use crate::byte_queue::ByteQueue;
use crate::packet_recv_space::PacketRecvSpace;
use crate::packet_recv_space::RecvSpaceView;
use crate::packet_send_space::PacketSendSpace;
use crate::packet_send_space::SendSpaceView;
use crate::rate::LossLevel;
use vstd::prelude::*;

verus! {

/// How many bytes may wait to be sent on a new connection.
pub const SEND_DATA_BUFFER_LENGTH: usize = 131072;

/// How many bytes may wait to be read on a new connection.
pub const RECV_DATA_BUFFER_LENGTH: usize = 131072;

/// The greatest number of payload bytes of a new packet.
pub const MSS: usize = 1413;

/// A packet that was written to the caller's buffer.
#[derive(Debug, Clone, Copy, PartialEq, Eq, Structural)]
pub struct DataPacket {
    /// The sequence number.
    pub seq: u64,
    /// How many bytes were written. Never zero.
    pub data_written: usize,
}

/// What there is to do when a packet may be sent.
#[derive(Debug, Clone, Copy, PartialEq, Eq, Structural)]
pub enum SendStep {
    /// Nothing is sent.
    Nothing,
    /// An earlier packet was written to the caller's buffer once more.
    Sent(DataPacket),
    /// A new packet is due, once the caller has recorded that it is being sent.
    New {
        /// Whether no packet is on its way.
        no_packets_in_flight: bool,
    },
}

/// An acknowledged packet, as the estimate of the delivery rate takes it.
#[derive(Debug, Clone)]
pub struct AckedPacket<S> {
    /// What was recorded when the packet was sent.
    pub state: S,
    /// How much the packet counts for.
    pub data_length: u64,
}

/// The round-trip time, in nanoseconds, that stands for none having been measured: the longest
/// time that `std::time::Duration` can hold.
pub const NO_RTT_NANOS: u128 = 18446744073709551615999999999;

/// What a log takes from outside the layer. `F` is the type of rates.
#[derive(Debug, Clone)]
pub struct Gauges<F> {
    /// The tokens left to send with.
    pub tokens: F,
    /// The sending rate.
    pub send_rate: F,
    /// The loss rate, if one is known.
    pub loss_rate: Option<F>,
    /// How many packets were sent more than once.
    pub num_rt_pkts: usize,
    /// The least round-trip time, in nanoseconds, or [`NO_RTT_NANOS`].
    pub min_rtt_nanos: u128,
    /// The smoothed round-trip time, in nanoseconds.
    pub smooth_rtt_nanos: u128,
}

/// How a connection fares. `F` is the type of rates; times are in milliseconds.
#[derive(Debug, Clone)]
pub struct Log<F> {
    pub tokens: F,
    pub send_rate: F,
    pub loss_rate: Option<F>,
    pub num_tx_pkts: usize,
    pub num_rt_pkts: usize,
    pub send_seq: u64,
    pub min_rtt: Option<u128>,
    pub rtt: u128,
    pub num_rx_pkts: usize,
    pub recv_seq: u64,
}

/// What the sender works with, as mathematics.
#[verifier::ext_equal]
pub struct SendView<S> {
    /// The bytes that were written and are in no packet yet.
    pub unsent: Seq<u8>,
    /// How many such bytes there may be.
    pub limit: nat,
    /// The packets on their way.
    pub space: SendSpaceView<S>,
}

impl<S> SendView<S> {
    /// The limits on buffered bytes and on the length of packets hold.
    pub open spec fn wf(self) -> bool {
        &&& self.unsent.len() <= self.limit <= SEND_DATA_BUFFER_LENGTH
        &&& self.space.wf()
        &&& forall|seq: u64| #[trigger]
            self.space.in_flight.contains_key(seq) ==> self.space.in_flight[seq].data.len() <= MSS
    }

    /// A sender that has sent nothing and has nothing to send.
    pub open spec fn empty() -> Self {
        SendView {
            unsent: Seq::empty(),
            limit: SEND_DATA_BUFFER_LENGTH as nat,
            space: SendSpaceView { next_seq: 0, in_flight: Map::empty() },
        }
    }

    /// How many of `len` more bytes there is room for.
    pub open spec fn writable(self, len: nat) -> nat {
        crate::byte_queue::shorter((self.limit - self.unsent.len()) as nat, len)
    }

    /// The sender once `bytes` have been written, as far as there is room.
    pub open spec fn write(self, bytes: Seq<u8>) -> Self {
        SendView { unsent: self.unsent + bytes.take(self.writable(bytes.len()) as int), ..self }
    }

    /// How many bytes a new packet carries if `room` bytes fit in the caller's buffer.
    pub open spec fn new_packet_len(self, room: nat) -> nat {
        crate::byte_queue::shorter(crate::byte_queue::shorter(room, MSS as nat), self.unsent.len())
    }

    /// The payload of a new packet.
    pub open spec fn new_packet(self, room: nat) -> Seq<u8> {
        self.unsent.take(self.new_packet_len(room) as int)
    }

    /// The sender once a new packet has been sent.
    pub open spec fn send_new(self, room: nat, stats: S) -> Self {
        SendView {
            unsent: self.unsent.skip(self.new_packet_len(room) as int),
            space: self.space.send(self.new_packet(room), stats),
            ..self
        }
    }

    /// The sender once the packets that `ack` names have been acknowledged.
    pub open spec fn ack(self, ack: Seq<u64>) -> Self {
        SendView { space: self.space.ack(ack), ..self }
    }

    /// The packet that is to be sent once more: the one that is due, if it is still on its way.
    pub open spec fn repeated(self, due: Option<u64>) -> Option<u64> {
        match due {
            Some(seq) if self.space.in_flight.contains_key(seq) => Some(seq),
            _ => None,
        }
    }

    /// What there is to do: nothing without a token; else a packet that is due is sent once
    /// more; else a new packet is sent if it can carry a byte.
    pub open spec fn next_step(self, room: nat, token_taken: bool, due: Option<u64>) -> SendStep {
        if !token_taken {
            SendStep::Nothing
        } else if self.repeated(due) is Some {
            let seq = self.repeated(due)->0;
            let data_written = self.space.in_flight[seq].data.len() as usize;
            SendStep::Sent(DataPacket { seq, data_written })
        } else if self.new_packet_len(room) == 0 {
            SendStep::Nothing
        } else {
            SendStep::New {
                no_packets_in_flight: self.space.in_flight.dom() == Set::<u64>::empty(),
            }
        }
    }
}

/// What the receiver works with, as mathematics.
#[verifier::ext_equal]
pub struct RecvView {
    /// The bytes that arrived in order and were not read yet.
    pub unread: Seq<u8>,
    /// How many such bytes there may be.
    pub limit: nat,
    /// The packets that wait for their turn.
    pub space: RecvSpaceView,
}

impl RecvView {
    /// The limits on buffered bytes and on held packets hold.
    pub open spec fn wf(self) -> bool {
        self.unread.len() <= self.limit <= RECV_DATA_BUFFER_LENGTH && self.space.wf()
    }

    /// A receiver that has received nothing.
    pub open spec fn empty(window: nat) -> Self {
        RecvView {
            unread: Seq::empty(),
            limit: RECV_DATA_BUFFER_LENGTH as nat,
            space: RecvSpaceView { next_seq: 0, held: Map::empty(), window },
        }
    }

    /// The next packet in order has arrived and there is room for all of it.
    pub open spec fn can_move(self) -> bool {
        &&& self.space.is_ready()
        &&& self.space.ready().len() <= self.limit - self.unread.len()
    }

    /// The receiver once the next packet in order has been moved to the bytes to read.
    pub open spec fn move_one(self) -> Self {
        RecvView { unread: self.unread + self.space.ready(), space: self.space.advance(), ..self }
    }

    /// The receiver once packets have been moved, in order and whole, as long as that can be.
    pub open spec fn settle(self) -> Self
        decreases u64::MAX - self.space.next_seq,
    {
        if self.can_move() {
            self.move_one().settle()
        } else {
            self
        }
    }

    /// The receiver once a packet has arrived.
    pub open spec fn arrive(self, seq: u64, data: Seq<u8>) -> Self {
        if self.space.accepts(seq) {
            (RecvView { space: self.space.offer(seq, data), ..self }).settle()
        } else {
            self
        }
    }

    /// How many bytes are read into a buffer of `room` bytes.
    pub open spec fn readable(self, room: nat) -> nat {
        crate::byte_queue::shorter(room, self.unread.len())
    }

    /// The receiver once bytes have been read into a buffer of `room` bytes.
    pub open spec fn read(self, room: nat) -> Self {
        (RecvView { unread: self.unread.skip(self.readable(room) as int), ..self }).settle()
    }
}

/// One end of a connection. `S` is what the caller records of a packet when it is first sent.
#[derive(Debug)]
pub struct ReliableLayer<S> {
    send_data_buf: ByteQueue,
    recv_data_buf: ByteQueue,
    packet_send_space: PacketSendSpace<S>,
    packet_recv_space: PacketRecvSpace,
}

impl<S> ReliableLayer<S> {
    /// What is being sent.
    pub closed spec fn sender(&self) -> SendView<S> {
        SendView {
            unsent: self.send_data_buf@,
            limit: self.send_data_buf.limit(),
            space: self.packet_send_space@,
        }
    }

    /// What is being received.
    pub closed spec fn receiver(&self) -> RecvView {
        RecvView {
            unread: self.recv_data_buf@,
            limit: self.recv_data_buf.limit(),
            space: self.packet_recv_space@,
        }
    }

    /// Both directions keep to their limits.
    pub closed spec fn wf(&self) -> bool {
        &&& self.sender().wf()
        &&& self.receiver().wf()
        &&& self.send_data_buf.wf()
        &&& self.recv_data_buf.wf()
        &&& self.packet_send_space.wf()
        &&& self.packet_recv_space.wf()
    }

    /// In every state that the methods lead to, the bytes that wait at either end keep to their
    /// limits, packets on their way carry at least one byte and at most [`MSS`], and packets are
    /// only held inside the window.
    pub proof fn law_limits_hold(&self)
        requires
            self.wf(),
        ensures
            self.sender().wf(),
            self.receiver().wf(),
            self.sender().unsent.len() <= self.sender().limit <= SEND_DATA_BUFFER_LENGTH,
            self.receiver().unread.len() <= self.receiver().limit <= RECV_DATA_BUFFER_LENGTH,
            forall|seq: u64| #[trigger]
                self.sender().space.in_flight.contains_key(seq) ==> {
                    &&& seq < self.sender().space.next_seq
                    &&& 0 < self.sender().space.in_flight[seq].data.len() <= MSS
                },
            forall|seq: u64| #[trigger]
                self.receiver().space.held.contains_key(seq) ==> self.receiver().space.next_seq
                    <= seq < self.receiver().space.next_seq + self.receiver().space.window,
    {
    }

    /// A connection on which nothing was sent or received. At most `recv_window` packets are
    /// held back until their turn comes.
    pub fn new(recv_window: u64) -> (layer: Self)
        ensures
            layer.wf(),
            layer.sender() == SendView::<S>::empty(),
            layer.receiver() == RecvView::empty(recv_window as nat),
    {
        ReliableLayer {
            send_data_buf: ByteQueue::new(SEND_DATA_BUFFER_LENGTH),
            recv_data_buf: ByteQueue::new(RECV_DATA_BUFFER_LENGTH),
            packet_send_space: PacketSendSpace::new(),
            packet_recv_space: PacketRecvSpace::new(recv_window),
        }
    }

    /// The packets on their way.
    pub fn packet_send_space(&self) -> (space: &PacketSendSpace<S>)
        requires
            self.wf(),
        ensures
            space.wf(),
            space@ == self.sender().space,
    {
        &self.packet_send_space
    }

    /// Whether what is sent is limited by the application and not by the path. If so, gives the
    /// number of packets on their way, which the estimate of the delivery rate is to be told.
    pub fn detect_application_limited_phases(&self, loss: LossLevel) -> (pipe: Option<u64>)
        requires
            self.wf(),
        ensures
            match pipe {
                Some(n) => {
                    &&& loss.spec_is_application_limited()
                    &&& n == self.sender().space.in_flight.dom().len()
                },
                None => !loss.spec_is_application_limited(),
            },
    {
        if loss.is_application_limited() {
            Some(self.packet_send_space.num_transmitting_packets() as u64)
        } else {
            None
        }
    }

    /// Takes bytes of the application, as far as there is room. Returns how many.
    pub fn send_data_buf(&mut self, buf: &[u8]) -> (written: usize)
        requires
            old(self).wf(),
        ensures
            final(self).wf(),
            written == old(self).sender().writable(buf@.len()),
            final(self).sender() == old(self).sender().write(buf@),
            final(self).receiver() == old(self).receiver(),
    {
        let free = self.send_data_buf.free();
        let write_bytes = if free < buf.len() {
            free
        } else {
            buf.len()
        };
        self.send_data_buf.append_from(buf, write_bytes);
        write_bytes
    }

    /// Sends a packet, in `packet`, if `token_taken` says that one may be sent. `due` is the
    /// packet that is to be sent once more, if one is.
    ///
    /// A new packet is not written yet: see [`Self::send_new_packet`].
    pub fn send_data_packet(
        &self,
        packet: &mut [u8],
        token_taken: bool,
        due: Option<u64>,
    ) -> (step: SendStep)
        requires
            self.wf(),
            token_taken && self.sender().repeated(due) is Some ==> self.sender().space.in_flight[
                self.sender().repeated(due)->0].data.len() <= old(packet)@.len(),
        ensures
            step == self.sender().next_step(old(packet)@.len(), token_taken, due),
            match step {
                SendStep::Sent(p) => {
                    &&& p.data_written == self.sender().space.in_flight[p.seq].data.len()
                    &&& 0 < p.data_written <= MSS
                    &&& final(packet)@ == self.sender().space.in_flight[p.seq].data + old(
                        packet,
                    )@.skip(p.data_written as int)
                },
                _ => final(packet)@ == old(packet)@,
            },
    {
        if !token_taken {
            return SendStep::Nothing;
        }
        if let Some(seq) = due {
            if let Some(data) = self.packet_send_space.retransmit(seq) {
                let data_written = data.len();
                assert(data@.take(data_written as int) =~= data@);
                copy_front(data, packet, data_written);
                return SendStep::Sent(DataPacket { seq, data_written });
            }
        }
        if packet.len() == 0 || self.send_data_buf.len() == 0 {
            return SendStep::Nothing;
        }
        SendStep::New { no_packets_in_flight: self.packet_send_space.no_packets_in_flight() }
    }

    /// Cuts a new packet off the bytes to send, keeps it until it is acknowledged, and writes it
    /// to `packet`. `stats` is what the caller has recorded of it.
    ///
    /// Returns `None` if the packet could not carry a single byte.
    pub fn send_new_packet(&mut self, packet: &mut [u8], stats: S) -> (sent: Option<DataPacket>)
        requires
            old(self).wf(),
            old(self).sender().new_packet_len(old(packet)@.len()) > 0
                ==> old(self).sender().space.next_seq < u64::MAX,
        ensures
            final(self).wf(),
            final(self).receiver() == old(self).receiver(),
            match sent {
                Some(p) => {
                    &&& old(self).sender().new_packet_len(old(packet)@.len()) > 0
                    &&& p.data_written == old(self).sender().new_packet_len(old(packet)@.len())
                    &&& p.seq == old(self).sender().space.next_seq
                    &&& final(self).sender() == old(self).sender().send_new(
                        old(packet)@.len(),
                        stats,
                    )
                    &&& final(packet)@ == old(self).sender().new_packet(old(packet)@.len()) + old(
                        packet,
                    )@.skip(p.data_written as int)
                },
                None => {
                    &&& old(self).sender().new_packet_len(old(packet)@.len()) == 0
                    &&& final(self).sender() == old(self).sender()
                    &&& final(packet)@ == old(packet)@
                },
            },
    {
        let mut packet_bytes = packet.len();
        if packet_bytes > MSS {
            packet_bytes = MSS;
        }
        if packet_bytes > self.send_data_buf.len() {
            packet_bytes = self.send_data_buf.len();
        }
        if packet_bytes == 0 {
            return None;
        }
        let mut data = match self.packet_send_space.reuse_buf() {
            Some(buf) => buf,
            None => Vec::new(),
        };
        self.send_data_buf.pop_to_vec(&mut data, packet_bytes);
        assert(data@ =~= old(self).sender().new_packet(packet@.len()));
        assert(data@.take(packet_bytes as int) =~= data@);
        copy_front(&data, packet, packet_bytes);
        let seq = self.packet_send_space.send(data, stats);
        Some(DataPacket { seq, data_written: packet_bytes })
    }

    /// Takes note that the packets that `ack` names have arrived. Returns what was recorded of
    /// those that were on their way, the one named last first.
    pub fn recv_ack_packet(&mut self, ack: &[u64]) -> (acked: Vec<AckedPacket<S>>)
        requires
            old(self).wf(),
        ensures
            final(self).wf(),
            final(self).receiver() == old(self).receiver(),
            final(self).sender() == old(self).sender().ack(ack@),
            acked@ == old(self).sender().space.acked(ack@).reverse().map_values(
                |state: S| AckedPacket { state, data_length: 1 },
            ),
    {
        let mut stats: Vec<S> = Vec::new();
        self.packet_send_space.ack(ack, &mut stats);
        let ghost recorded = stats@;
        assert(recorded =~= old(self).sender().space.acked(ack@));
        let mut acked: Vec<AckedPacket<S>> = Vec::new();
        loop
            invariant
                stats@.len() <= recorded.len(),
                stats@ == recorded.take(stats@.len() as int),
                acked@ == recorded.skip(stats@.len() as int).reverse().map_values(
                    |state: S| AckedPacket { state, data_length: 1 },
                ),
            ensures
                stats@.len() == 0,
            decreases stats@.len(),
        {
            match stats.pop() {
                Some(state) => acked.push(AckedPacket { state, data_length: 1 }),
                None => break,
            }
        }
        assert(recorded.skip(0) =~= recorded);
        acked
    }

    /// Gives the application the bytes that it may read, as far as `buf` has room. Returns how
    /// many.
    pub fn recv_data_buf(&mut self, buf: &mut [u8]) -> (read: usize)
        requires
            old(self).wf(),
        ensures
            final(self).wf(),
            final(self).sender() == old(self).sender(),
            read == old(self).receiver().readable(old(buf)@.len()),
            final(buf)@ == old(self).receiver().unread.take(read as int) + old(buf)@.skip(
                read as int,
            ),
            final(self).receiver() == old(self).receiver().read(old(buf)@.len()),
    {
        let len = self.recv_data_buf.len();
        let read_bytes = if buf.len() < len {
            buf.len()
        } else {
            len
        };
        self.recv_data_buf.pop_to_slice(buf, read_bytes);
        self.move_recv_data();
        read_bytes
    }

    /// Takes a packet that has arrived.
    ///
    /// Return `false` if the data is rejected due to window capacity
    pub fn recv_data_packet(&mut self, seq: u64, packet: &[u8]) -> (accepted: bool)
        requires
            old(self).wf(),
        ensures
            final(self).wf(),
            final(self).sender() == old(self).sender(),
            accepted == old(self).receiver().space.accepts(seq),
            final(self).receiver() == old(self).receiver().arrive(seq, packet@),
    {
        let mut buf = match self.packet_recv_space.reuse_buf() {
            Some(buf) => buf,
            None => Vec::new(),
        };
        let mut i: usize = 0;
        while i < packet.len()
            invariant
                i <= packet@.len(),
                buf@ == packet@.take(i as int),
            decreases packet@.len() - i,
        {
            buf.push(packet[i]);
            i += 1;
        }
        assert(buf@ =~= packet@);
        if !self.packet_recv_space.recv(seq, buf) {
            return false;
        }
        self.move_recv_data();
        true
    }

    /// Moves packets, in order and whole, to the bytes to read, as long as there is room.
    fn move_recv_data(&mut self)
        requires
            old(self).wf(),
        ensures
            final(self).wf(),
            final(self).sender() == old(self).sender(),
            final(self).receiver() == old(self).receiver().settle(),
    {
        loop
            invariant
                self.wf(),
                self.sender() == old(self).sender(),
                self.receiver().settle() == old(self).receiver().settle(),
            ensures
                !self.receiver().can_move(),
            decreases u64::MAX - self.receiver().space.next_seq,
        {
            match self.packet_recv_space.peak() {
                Some(p) => {
                    if self.recv_data_buf.free() < p.len() {
                        break;
                    }
                },
                None => break,
            }
            if let Some(p) = self.packet_recv_space.pop() {
                let len = p.len();
                assert(p@.take(len as int) =~= p@);
                self.recv_data_buf.append_from(&p, len);
                self.packet_recv_space.return_buf(p);
            }
        }
    }

    /// Writes down how the connection fares.
    pub fn log<F>(&self, gauges: Gauges<F>) -> (log: Log<F>)
        requires
            self.wf(),
        ensures
            log.tokens == gauges.tokens,
            log.send_rate == gauges.send_rate,
            log.loss_rate == gauges.loss_rate,
            log.num_tx_pkts == self.sender().space.in_flight.dom().len(),
            log.num_rt_pkts == gauges.num_rt_pkts,
            log.send_seq == self.sender().space.next_seq,
            log.min_rtt == if gauges.min_rtt_nanos == NO_RTT_NANOS {
                None::<u128>
            } else {
                Some((gauges.min_rtt_nanos / 1_000_000) as u128)
            },
            log.rtt == gauges.smooth_rtt_nanos / 1_000_000,
            log.num_rx_pkts == self.receiver().space.held.dom().len(),
            log.recv_seq == self.receiver().space.next_seq,
    {
        let min_rtt = if gauges.min_rtt_nanos == NO_RTT_NANOS {
            None
        } else {
            Some(gauges.min_rtt_nanos / 1_000_000)
        };
        Log {
            tokens: gauges.tokens,
            send_rate: gauges.send_rate,
            loss_rate: gauges.loss_rate,
            num_tx_pkts: self.packet_send_space.num_transmitting_packets(),
            num_rt_pkts: gauges.num_rt_pkts,
            send_seq: self.packet_send_space.next_seq(),
            min_rtt,
            rtt: gauges.smooth_rtt_nanos / 1_000_000,
            num_rx_pkts: self.packet_recv_space.num_received_packets(),
            recv_seq: self.packet_recv_space.next_seq(),
        }
    }
}

impl<S: Clone> Clone for ReliableLayer<S> {
    /// A connection in the same state, with buffers that are only as long as what they hold: it
    /// takes bytes and packets again as room comes free.
    fn clone(&self) -> (layer: Self)
        ensures
            self.wf() ==> layer.wf(),
            layer.sender().unsent == self.sender().unsent,
            layer.sender().limit == self.sender().unsent.len(),
            layer.sender().space.has_packets_of(self.sender().space),
            layer.receiver() == (RecvView {
                limit: self.receiver().unread.len(),
                ..self.receiver()
            }),
    {
        ReliableLayer {
            send_data_buf: self.send_data_buf.clone(),
            recv_data_buf: self.recv_data_buf.clone(),
            packet_send_space: self.packet_send_space.clone(),
            packet_recv_space: self.packet_recv_space.clone(),
        }
    }
}

} // verus!
