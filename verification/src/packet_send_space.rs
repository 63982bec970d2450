//! Packets that were sent and are not acknowledged yet.

use crate::byte_queue::clone_bufs;
use std::collections::BTreeMap;
use vstd::prelude::*;

verus! {

/// A packet on its way, as mathematics.
#[verifier::ext_equal]
pub struct Flight<S> {
    /// The payload.
    pub data: Seq<u8>,
    /// What was recorded when the packet was first sent.
    pub stats: S,
}

/// What a send space holds, as mathematics.
#[verifier::ext_equal]
pub struct SendSpaceView<S> {
    /// The sequence number that the next new packet gets.
    pub next_seq: nat,
    /// The packets that were sent and are not acknowledged yet, by sequence number.
    pub in_flight: Map<u64, Flight<S>>,
}

impl<S> SendSpaceView<S> {
    /// Packets on their way were numbered before and carry at least one byte.
    pub open spec fn wf(self) -> bool {
        &&& self.next_seq <= u64::MAX
        &&& forall|seq: u64| #[trigger]
            self.in_flight.contains_key(seq) ==> {
                &&& seq < self.next_seq
                &&& self.in_flight[seq].data.len() > 0
            }
    }

    /// The space once a new packet has been sent.
    pub open spec fn send(self, data: Seq<u8>, stats: S) -> Self {
        SendSpaceView {
            next_seq: self.next_seq + 1,
            in_flight: self.in_flight.insert(self.next_seq as u64, Flight { data, stats }),
        }
    }

    /// The space once the packets that `ack` names have been acknowledged.
    pub open spec fn ack(self, ack: Seq<u64>) -> Self {
        SendSpaceView { in_flight: self.in_flight.remove_keys(ack.to_set()), ..self }
    }

    /// The same packets are on their way as in the other space, whatever was recorded of them.
    pub open spec fn has_packets_of(self, other: Self) -> bool {
        &&& self.next_seq == other.next_seq
        &&& self.in_flight.dom() == other.in_flight.dom()
        &&& forall|seq: u64| #[trigger]
            self.in_flight.contains_key(seq) ==> self.in_flight[seq].data
                == other.in_flight[seq].data
    }

    /// What was recorded of the packets that `ack` acknowledges, in the order in which `ack`
    /// first names them. Packets that are not on their way are passed over.
    pub open spec fn acked(self, ack: Seq<u64>) -> Seq<S>
        decreases ack.len(),
    {
        if ack.len() == 0 {
            Seq::empty()
        } else {
            let earlier = ack.drop_last();
            let seq = ack.last();
            if self.in_flight.contains_key(seq) && !earlier.contains(seq) {
                self.acked(earlier).push(self.in_flight[seq].stats)
            } else {
                self.acked(earlier)
            }
        }
    }
}

#[derive(Debug, Clone)]
struct SentPacket<S> {
    data: Vec<u8>,
    stats: S,
}

/// Numbers packets, from zero on, and keeps each one until it is acknowledged.
#[derive(Debug)]
pub struct PacketSendSpace<S> {
    next_seq: u64,
    packets: BTreeMap<u64, SentPacket<S>>,
    spare: Vec<Vec<u8>>,
}

impl<S> View for PacketSendSpace<S> {
    type V = SendSpaceView<S>;

    closed spec fn view(&self) -> SendSpaceView<S> {
        SendSpaceView {
            next_seq: self.next_seq as nat,
            in_flight: self.packets@.map_values(
                |packet: SentPacket<S>| Flight { data: packet.data@, stats: packet.stats },
            ),
        }
    }
}

impl<S> PacketSendSpace<S> {
    /// Packets on their way were numbered before and carry at least one byte, and the spare
    /// buffers are empty.
    pub closed spec fn wf(&self) -> bool {
        &&& self@.wf()
        &&& forall|i: int| 0 <= i < self.spare@.len() ==> (#[trigger] self.spare@[i])@.len() == 0
    }

    /// How many empty buffers are kept for later use.
    pub closed spec fn spare_bufs(&self) -> nat {
        self.spare@.len()
    }

    /// A space that has sent nothing.
    pub fn new() -> (space: Self)
        ensures
            space.wf(),
            space.spare_bufs() == 0,
            space@ == (SendSpaceView::<S> { next_seq: 0, in_flight: Map::empty() }),
    {
        let space = PacketSendSpace { next_seq: 0, packets: BTreeMap::new(), spare: Vec::new() };
        assert(space@.in_flight =~= Map::empty());
        space
    }

    /// The sequence number that the next new packet gets.
    pub fn next_seq(&self) -> (seq: u64)
        ensures
            seq == self@.next_seq,
    {
        self.next_seq
    }

    /// How many packets are on their way.
    pub fn num_transmitting_packets(&self) -> (num: usize)
        ensures
            num == self@.in_flight.dom().len(),
    {
        assert(self@.in_flight.dom() =~= self.packets@.dom());
        self.packets.len()
    }

    /// Whether no packet is on its way.
    pub fn no_packets_in_flight(&self) -> (none: bool)
        ensures
            none == (self@.in_flight.dom() == Set::<u64>::empty()),
    {
        assert(self@.in_flight.dom() =~= self.packets@.dom());
        self.packets.is_empty()
    }

    /// An empty buffer that was used before, if one is left.
    pub fn reuse_buf(&mut self) -> (buf: Option<Vec<u8>>)
        requires
            old(self).wf(),
        ensures
            final(self).wf(),
            final(self)@ == old(self)@,
            match buf {
                Some(b) => {
                    &&& b@ == Seq::<u8>::empty()
                    &&& old(self).spare_bufs() == final(self).spare_bufs() + 1
                },
                None => old(self).spare_bufs() == 0 && final(self).spare_bufs() == 0,
            },
    {
        let buf = self.spare.pop();
        assert(self@ =~= old(self)@);
        buf
    }

    /// Keeps the payload of a new packet, and what was recorded of it, and numbers it.
    pub fn send(&mut self, data: Vec<u8>, stats: S) -> (seq: u64)
        requires
            old(self).wf(),
            data@.len() > 0,
            old(self)@.next_seq < u64::MAX,
        ensures
            final(self).wf(),
            seq == old(self)@.next_seq,
            final(self)@ == old(self)@.send(data@, stats),
            final(self).spare_bufs() == old(self).spare_bufs(),
    {
        let seq = self.next_seq;
        let ghost payload = data@;
        self.packets.insert(seq, SentPacket { data, stats });
        self.next_seq = seq + 1;
        assert(self@ =~= old(self)@.send(payload, stats));
        seq
    }

    /// The payload of the packet numbered `seq`, if it is on its way.
    pub fn retransmit(&self, seq: u64) -> (data: Option<&Vec<u8>>)
        ensures
            match data {
                Some(d) => self@.in_flight.contains_key(seq) && d@ == self@.in_flight[seq].data,
                None => !self@.in_flight.contains_key(seq),
            },
    {
        assert(self.packets@.contains_key(seq) == self@.in_flight.contains_key(seq));
        match self.packets.get(&seq) {
            Some(packet) => Some(&packet.data),
            None => None,
        }
    }

    /// Forgets the packets that `ack` names, and puts what was recorded of them at the end of
    /// `stats`.
    pub fn ack(&mut self, ack: &[u64], stats: &mut Vec<S>)
        requires
            old(self).wf(),
        ensures
            final(self).wf(),
            final(self)@ == old(self)@.ack(ack@),
            final(stats)@ == old(stats)@ + old(self)@.acked(ack@),
            final(self).spare_bufs() == old(self).spare_bufs() + old(self)@.acked(ack@).len(),
    {
        let ghost before = self@;
        let ghost recorded = stats@;
        let mut i: usize = 0;
        assert(self@ =~= before.ack(ack@.take(0)));
        while i < ack.len()
            invariant
                i <= ack@.len(),
                self.wf(),
                self@ == before.ack(ack@.take(i as int)),
                stats@ == recorded + before.acked(ack@.take(i as int)),
                self.spare_bufs() == old(self).spare_bufs() + before.acked(
                    ack@.take(i as int),
                ).len(),
            decreases ack@.len() - i,
        {
            let seq = ack[i];
            let ghost current = self@;
            let ghost earlier = ack@.take(i as int);
            let ghost longer = ack@.take(i + 1);
            assert(longer.drop_last() =~= earlier);
            assert(longer.last() == seq);
            assert(self.packets@.contains_key(seq) == current.in_flight.contains_key(seq));
            let removed = self.packets.remove(&seq);
            assert(self@.in_flight =~= current.in_flight.remove(seq));
            assert(before.ack(longer).in_flight =~= current.in_flight.remove(seq)) by {
                assert(longer =~= earlier.push(seq));
                earlier.lemma_push_to_set_commute(seq);
            }
            if let Some(packet) = removed {
                let mut buf = packet.data;
                buf.clear();
                self.spare.push(buf);
                stats.push(packet.stats);
                assert(before.in_flight.contains_key(seq) && !earlier.contains(seq));
            }
            assert(self@ =~= before.ack(longer));
            i += 1;
        }
        assert(ack@.take(i as int) =~= ack@);
    }
}

impl<S: Clone> Clone for PacketSendSpace<S> {
    /// A space with the same packets, and a clone of what was recorded of each.
    fn clone(&self) -> (space: Self)
        ensures
            space@.has_packets_of(self@),
            space.spare_bufs() == self.spare_bufs(),
            self.wf() ==> space.wf(),
    {
        let space = PacketSendSpace {
            next_seq: self.next_seq,
            packets: self.packets.clone(),
            spare: clone_bufs(&self.spare),
        };
        assert(space@.has_packets_of(self@));
        space
    }
}

} // verus!
