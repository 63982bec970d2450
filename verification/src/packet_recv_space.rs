//! Packets that have arrived and wait for their turn.

use crate::byte_queue::clone_bufs;
use std::collections::BTreeMap;
use vstd::prelude::*;

verus! {

/// What a receive space holds, as mathematics.
#[verifier::ext_equal]
pub struct RecvSpaceView {
    /// The sequence number of the next packet in order.
    pub next_seq: nat,
    /// The packets that have arrived and were not taken yet, by sequence number.
    pub held: Map<u64, Seq<u8>>,
    /// How many sequence numbers, from the next one on, may be held.
    pub window: nat,
}

impl RecvSpaceView {
    /// Only packets inside the window are held.
    pub open spec fn wf(self) -> bool {
        &&& self.next_seq <= u64::MAX
        &&& forall|seq: u64| #[trigger] self.held.contains_key(seq) ==> self.in_window(seq)
    }

    /// The window reaches `seq`. The greatest number is never used, so that a next one exists.
    pub open spec fn in_window(self, seq: u64) -> bool {
        self.next_seq <= seq < self.next_seq + self.window && seq < u64::MAX
    }

    /// A packet numbered `seq` was taken before, or there is room for it.
    pub open spec fn accepts(self, seq: u64) -> bool {
        seq < self.next_seq || self.in_window(seq)
    }

    /// The space once the packet `data`, numbered `seq`, has been offered to it.
    pub open spec fn offer(self, seq: u64, data: Seq<u8>) -> Self {
        if self.in_window(seq) {
            RecvSpaceView { held: self.held.insert(seq, data), ..self }
        } else {
            self
        }
    }

    /// The next packet in order has arrived.
    pub open spec fn is_ready(self) -> bool {
        self.next_seq < u64::MAX && self.held.contains_key(self.next_seq as u64)
    }

    /// The next packet in order.
    pub open spec fn ready(self) -> Seq<u8>
        recommends
            self.is_ready(),
    {
        self.held[self.next_seq as u64]
    }

    /// The space once the next packet in order has been taken out.
    pub open spec fn advance(self) -> Self {
        RecvSpaceView {
            next_seq: self.next_seq + 1,
            held: self.held.remove(self.next_seq as u64),
            ..self
        }
    }
}

/// Puts packets back in the order of their sequence numbers, which start at zero.
#[derive(Debug)]
pub struct PacketRecvSpace {
    next_seq: u64,
    window: u64,
    packets: BTreeMap<u64, Vec<u8>>,
    spare: Vec<Vec<u8>>,
}

impl View for PacketRecvSpace {
    type V = RecvSpaceView;

    closed spec fn view(&self) -> RecvSpaceView {
        RecvSpaceView {
            next_seq: self.next_seq as nat,
            held: self.packets@.map_values(|packet: Vec<u8>| packet@),
            window: self.window as nat,
        }
    }
}

impl PacketRecvSpace {
    /// Only packets inside the window are held, and the spare buffers are empty.
    pub closed spec fn wf(&self) -> bool {
        &&& self@.wf()
        &&& forall|i: int| 0 <= i < self.spare@.len() ==> (#[trigger] self.spare@[i])@.len() == 0
    }

    /// How many empty buffers are kept for later use.
    pub closed spec fn spare_bufs(&self) -> nat {
        self.spare@.len()
    }

    /// An empty space that holds at most `window` packets.
    pub fn new(window: u64) -> (space: Self)
        ensures
            space.wf(),
            space.spare_bufs() == 0,
            space@ == (RecvSpaceView { next_seq: 0, held: Map::empty(), window: window as nat }),
    {
        let space = PacketRecvSpace {
            next_seq: 0,
            window,
            packets: BTreeMap::new(),
            spare: Vec::new(),
        };
        assert(space@.held =~= Map::empty());
        space
    }

    /// The sequence number of the next packet in order.
    pub fn next_seq(&self) -> (seq: u64)
        ensures
            seq == self@.next_seq,
    {
        self.next_seq
    }

    /// How many packets have arrived and were not taken yet.
    pub fn num_received_packets(&self) -> (num: usize)
        ensures
            num == self@.held.dom().len(),
    {
        assert(self@.held.dom() =~= self.packets@.dom());
        self.packets.len()
    }

    /// An empty buffer that was used before, if one is left.
    pub fn reuse_buf(&mut self) -> (buf: Option<Vec<u8>>)
        requires
            old(self).wf(),
        ensures
            final(self).wf(),
            final(self)@ == old(self)@,
            match buf {
                Some(b) => {
                    &&& b@ == Seq::<u8>::empty()
                    &&& old(self).spare_bufs() == final(self).spare_bufs() + 1
                },
                None => old(self).spare_bufs() == 0 && final(self).spare_bufs() == 0,
            },
    {
        let buf = self.spare.pop();
        assert(self@ =~= old(self)@);
        buf
    }

    /// Keeps a buffer for later use. Its content is dropped.
    pub fn return_buf(&mut self, buf: Vec<u8>)
        requires
            old(self).wf(),
        ensures
            final(self).wf(),
            final(self)@ == old(self)@,
            final(self).spare_bufs() == old(self).spare_bufs() + 1,
    {
        let mut buf = buf;
        buf.clear();
        self.spare.push(buf);
        assert(self@ =~= old(self)@);
    }

    /// Offers the packet `packet`, numbered `seq`.
    ///
    /// Returns `false` if the packet is rejected because the window does not reach it. A packet
    /// that was taken before is accepted and dropped.
    pub fn recv(&mut self, seq: u64, packet: Vec<u8>) -> (accepted: bool)
        requires
            old(self).wf(),
        ensures
            final(self).wf(),
            accepted == old(self)@.accepts(seq),
            final(self)@ == old(self)@.offer(seq, packet@),
            final(self).spare_bufs() == old(self).spare_bufs() + if old(self)@.in_window(seq)
                && !old(self)@.held.contains_key(seq) {
                0nat
            } else {
                1nat
            },
    {
        if seq < self.next_seq {
            self.return_buf(packet);
            return true;
        }
        if seq - self.next_seq >= self.window || seq == u64::MAX {
            self.return_buf(packet);
            return false;
        }
        let ghost data = packet@;
        let replaced = self.packets.insert(seq, packet);
        assert(self@ =~= old(self)@.offer(seq, data));
        if let Some(buf) = replaced {
            self.return_buf(buf);
        }
        true
    }

    /// The next packet in order, if it has arrived.
    pub fn peak(&self) -> (packet: Option<&Vec<u8>>)
        requires
            self.wf(),
        ensures
            match packet {
                Some(p) => self@.is_ready() && p@ == self@.ready(),
                None => !self@.is_ready(),
            },
    {
        let packet = self.packets.get(&self.next_seq);
        assert(self.packets@.contains_key(self.next_seq) == self@.held.contains_key(self.next_seq));
        packet
    }

    /// Takes the next packet in order, if it has arrived.
    pub fn pop(&mut self) -> (packet: Option<Vec<u8>>)
        requires
            old(self).wf(),
        ensures
            final(self).wf(),
            final(self).spare_bufs() == old(self).spare_bufs(),
            match packet {
                Some(p) => {
                    &&& old(self)@.is_ready()
                    &&& p@ == old(self)@.ready()
                    &&& final(self)@ == old(self)@.advance()
                },
                None => !old(self)@.is_ready() && final(self)@ == old(self)@,
            },
    {
        let ghost before = self@;
        assert(self.packets@.contains_key(self.next_seq) == before.held.contains_key(
            self.next_seq,
        ));
        let packet = self.packets.remove(&self.next_seq);
        if packet.is_some() {
            self.next_seq = self.next_seq + 1;
            assert(self@ =~= before.advance());
        } else {
            assert(self@ =~= before);
        }
        packet
    }
}

impl Clone for PacketRecvSpace {
    /// A space with the same packets.
    fn clone(&self) -> (space: Self)
        ensures
            space@ == self@,
            space.spare_bufs() == self.spare_bufs(),
            self.wf() ==> space.wf(),
    {
        let space = PacketRecvSpace {
            next_seq: self.next_seq,
            window: self.window,
            packets: self.packets.clone(),
            spare: clone_bufs(&self.spare),
        };
        assert(space@ =~= self@);
        space
    }
}

} // verus!
