//! What each operation of the sending end does, whatever state it is in.

use crate::packet_send_space::Flight;
use crate::packet_send_space::SendSpaceView;
use crate::reliable_layer::DataPacket;
use crate::reliable_layer::SendStep;
use crate::reliable_layer::SendView;
use crate::reliable_layer::MSS;
use crate::reliable_layer::NO_RTT_NANOS;
use crate::reliable_layer::RECV_DATA_BUFFER_LENGTH;
use crate::reliable_layer::SEND_DATA_BUFFER_LENGTH;
use vstd::prelude::*;

verus! {

/// The lengths of the buffers and of packets. The time that stands for none is the longest that
/// 64 bits of whole seconds and a fraction in nanoseconds can hold.
pub proof fn law_sizes()
    ensures
        SEND_DATA_BUFFER_LENGTH == 0x20000,
        RECV_DATA_BUFFER_LENGTH == 0x20000,
        MSS == 1413,
        NO_RTT_NANOS == (u64::MAX + 1) * 1_000_000_000 - 1,
{
}

/// A new sender has nothing to send, nothing on its way, the whole of its buffer free, and
/// numbers packets from zero on.
pub proof fn law_new_sender_is_empty<S>()
    ensures
        SendView::<S>::empty().unsent.len() == 0,
        SendView::<S>::empty().limit == SEND_DATA_BUFFER_LENGTH,
        SendView::<S>::empty().space.next_seq == 0,
        forall|seq: u64| !#[trigger] SendView::<S>::empty().space.in_flight.contains_key(seq),
{
}

/// A write that fits is taken whole, behind the bytes that wait already. One that does not fit is
/// taken from its start until the buffer is full. Nothing else changes.
pub proof fn law_write_takes_all_that_fits<S>(tx: SendView<S>, bytes: Seq<u8>)
    requires
        tx.unsent.len() <= tx.limit,
    ensures
        tx.unsent.len() + bytes.len() <= tx.limit ==> {
            &&& tx.writable(bytes.len()) == bytes.len()
            &&& tx.write(bytes).unsent == tx.unsent + bytes
        },
        tx.unsent.len() + bytes.len() > tx.limit ==> {
            &&& tx.writable(bytes.len()) == tx.limit - tx.unsent.len()
            &&& tx.write(bytes).unsent == (tx.unsent + bytes).take(tx.limit as int)
        },
        tx.write(bytes).unsent.len() == tx.unsent.len() + tx.writable(bytes.len()),
        tx.write(bytes).limit == tx.limit,
        tx.write(bytes).space == tx.space,
{
    assert(bytes.take(bytes.len() as int) =~= bytes);
    if tx.unsent.len() + bytes.len() > tx.limit {
        let free = tx.limit - tx.unsent.len();
        assert(tx.unsent + bytes.take(free) =~= (tx.unsent + bytes).take(tx.limit as int));
    }
}

/// Two writes, one after the other, come to the same as one write of all the bytes.
pub proof fn law_writes_join<S>(tx: SendView<S>, first: Seq<u8>, second: Seq<u8>)
    requires
        tx.unsent.len() <= tx.limit,
    ensures
        tx.write(first).write(second) == tx.write(first + second),
        tx.writable(first.len()) + tx.write(first).writable(second.len()) == tx.writable(
            (first + second).len(),
        ),
{
    law_write_takes_all_that_fits(tx, first);
    law_write_takes_all_that_fits(tx.write(first), second);
    law_write_takes_all_that_fits(tx, first + second);
    assert(tx.unsent + first + second =~= tx.unsent + (first + second));
    if tx.unsent.len() + first.len() > tx.limit {
        assert(((tx.unsent + first).take(tx.limit as int) + second).take(tx.limit as int)
            =~= (tx.unsent + (first + second)).take(tx.limit as int));
    }
    assert(tx.write(first).write(second) =~= tx.write(first + second));
}

/// A new packet carries the first bytes that wait, and as many as its limit, the caller's buffer
/// and the waiting bytes allow.
pub proof fn law_new_packet_is_as_long_as_it_can_be<S>(tx: SendView<S>, room: nat)
    ensures
        tx.new_packet_len(room) <= room,
        tx.new_packet_len(room) <= MSS,
        tx.new_packet_len(room) <= tx.unsent.len(),
        tx.new_packet_len(room) < room && tx.new_packet_len(room) < MSS ==> tx.new_packet_len(room)
            == tx.unsent.len(),
        tx.new_packet(room).len() == tx.new_packet_len(room),
        tx.new_packet(room).is_prefix_of(tx.unsent),
{
}

/// Sending a new packet cuts its bytes off those that wait, so that none is lost or sent twice,
/// gives it the next number, and keeps it under that number with what was recorded of it. No
/// other packet on its way is touched.
pub proof fn law_new_packet_moves_bytes_on_their_way<S>(tx: SendView<S>, room: nat, stats: S)
    requires
        tx.space.next_seq < u64::MAX,
    ensures
        tx.new_packet(room) + tx.send_new(room, stats).unsent == tx.unsent,
        tx.send_new(room, stats).limit == tx.limit,
        tx.send_new(room, stats).space.next_seq == tx.space.next_seq + 1,
        tx.send_new(room, stats).space.in_flight.contains_key(tx.space.next_seq as u64),
        tx.send_new(room, stats).space.in_flight[tx.space.next_seq as u64].data == tx.new_packet(
            room,
        ),
        tx.send_new(room, stats).space.in_flight[tx.space.next_seq as u64].stats == stats,
        forall|seq: u64|
            seq != tx.space.next_seq ==> {
                &&& #[trigger] tx.send_new(room, stats).space.in_flight.contains_key(seq)
                    == tx.space.in_flight.contains_key(seq)
                &&& tx.send_new(room, stats).space.in_flight[seq] == tx.space.in_flight[seq]
            },
{
    assert(tx.new_packet(room) + tx.send_new(room, stats).unsent =~= tx.unsent);
}

/// A packet that is sent is kept under the next number, and the others stay as they were.
pub proof fn law_sent_packet_is_kept<S>(
    space: SendSpaceView<S>,
    data: Seq<u8>,
    stats: S,
    seq: u64,
)
    requires
        space.next_seq < u64::MAX,
    ensures
        space.send(data, stats).next_seq == space.next_seq + 1,
        space.send(data, stats).in_flight.contains_key(seq) <==> seq == space.next_seq
            || space.in_flight.contains_key(seq),
        seq == space.next_seq ==> space.send(data, stats).in_flight[seq] == (Flight {
            data,
            stats,
        }),
        seq != space.next_seq ==> space.send(data, stats).in_flight[seq] == space.in_flight[seq],
{
}

/// Without a token nothing is ever sent, whatever waits, is due or is on its way.
pub proof fn law_nothing_is_sent_without_token<S>(tx: SendView<S>, room: nat, due: Option<u64>)
    ensures
        tx.next_step(room, false, due) == SendStep::Nothing,
{
}

/// With a token, a packet that is due and not acknowledged goes first, even if nothing new can be
/// sent.
pub proof fn law_due_packet_goes_first<S>(tx: SendView<S>, room: nat, seq: u64)
    requires
        tx.space.in_flight.contains_key(seq),
        tx.space.in_flight[seq].data.len() <= MSS,
    ensures
        tx.repeated(Some(seq)) == Some(seq),
        tx.next_step(room, true, Some(seq)) == SendStep::Sent(
            DataPacket { seq, data_written: tx.space.in_flight[seq].data.len() as usize },
        ),
{
}

/// With a token, and no packet that is due and not acknowledged, a new packet is sent exactly if
/// there is a byte to send and a place to put it. The caller is told whether it is the only
/// packet on its way.
pub proof fn law_new_packet_is_sent_if_it_can_be<S>(tx: SendView<S>, room: nat, due: Option<u64>)
    requires
        forall|seq: u64| due == Some(seq) ==> !#[trigger] tx.space.in_flight.contains_key(seq),
    ensures
        tx.repeated(due) is None,
        tx.unsent.len() == 0 || room == 0 ==> tx.next_step(room, true, due) == SendStep::Nothing,
        tx.unsent.len() > 0 && room > 0 ==> {
            &&& tx.new_packet_len(room) > 0
            &&& tx.next_step(room, true, due) matches SendStep::New { no_packets_in_flight }
            &&& no_packets_in_flight <==> (forall|seq: u64|
                !#[trigger] tx.space.in_flight.contains_key(seq))
        },
{
    if forall|seq: u64| !#[trigger] tx.space.in_flight.contains_key(seq) {
        assert forall|seq: u64| !tx.space.in_flight.dom().contains(seq) by {
            assert(!tx.space.in_flight.contains_key(seq));
        }
        assert(tx.space.in_flight.dom() =~= Set::<u64>::empty());
    } else {
        let seq = choose|seq: u64| #[trigger] tx.space.in_flight.contains_key(seq);
        assert(tx.space.in_flight.dom().contains(seq));
        assert(!Set::<u64>::empty().contains(seq));
    }
}

/// After an acknowledgement, however long, no packet that it names is on its way. Every other
/// packet is, if it was before, with the same bytes and the same record.
pub proof fn law_acked_packets_leave<S>(space: SendSpaceView<S>, ack: Seq<u64>)
    ensures
        forall|i: int|
            0 <= i < ack.len() ==> !space.ack(ack).in_flight.contains_key(#[trigger] ack[i]),
        forall|seq: u64|
            !ack.contains(seq) ==> {
                &&& #[trigger] space.ack(ack).in_flight.contains_key(seq)
                    == space.in_flight.contains_key(seq)
                &&& space.in_flight.contains_key(seq) ==> space.ack(ack).in_flight[seq]
                    == space.in_flight[seq]
            },
        space.ack(ack).next_seq == space.next_seq,
{
    assert forall|i: int| 0 <= i < ack.len() implies !space.ack(ack).in_flight.contains_key(
        #[trigger] ack[i],
    ) by {
        assert(ack.to_set().contains(ack[i]));
    }
}

/// An acknowledgement leaves the bytes that wait, and the room for them, alone.
pub proof fn law_ack_leaves_waiting_bytes_alone<S>(tx: SendView<S>, ack: Seq<u64>)
    ensures
        tx.ack(ack).unsent == tx.unsent,
        tx.ack(ack).limit == tx.limit,
        tx.ack(ack).space == tx.space.ack(ack),
{
}

/// What was recorded of each named packet that was on its way is reported, and nothing else is.
pub proof fn law_ack_reports_what_was_recorded<S>(space: SendSpaceView<S>, ack: Seq<u64>)
    ensures
        forall|i: int|
            0 <= i < ack.len() && space.in_flight.contains_key(#[trigger] ack[i])
                ==> space.acked(ack).contains(space.in_flight[ack[i]].stats),
        forall|j: int|
            0 <= j < space.acked(ack).len() ==> exists|i: int|
                0 <= i < ack.len() && space.in_flight.contains_key(#[trigger] ack[i])
                    && space.in_flight[ack[i]].stats == #[trigger] space.acked(ack)[j],
    decreases ack.len(),
{
    if ack.len() > 0 {
        let earlier = ack.drop_last();
        let seq = ack.last();
        law_ack_reports_what_was_recorded(space, earlier);
        let before = space.acked(earlier);
        let all = space.acked(ack);
        assert forall|i: int|
            0 <= i < ack.len() && space.in_flight.contains_key(
                #[trigger] ack[i],
            ) implies all.contains(space.in_flight[ack[i]].stats) by {
            let state = space.in_flight[ack[i]].stats;
            if earlier.contains(ack[i]) {
                let k = earlier.index_of(ack[i]);
                assert(space.in_flight.contains_key(earlier[k]));
                let j = before.index_of(state);
                assert(all[j] == state);
            } else {
                assert(i == ack.len() - 1) by {
                    if i < ack.len() - 1 {
                        assert(earlier[i] == ack[i]);
                    }
                }
                assert(all[all.len() - 1] == state);
            }
        }
        assert forall|j: int| 0 <= j < all.len() implies exists|i: int|
            0 <= i < ack.len() && space.in_flight.contains_key(#[trigger] ack[i])
                && space.in_flight[ack[i]].stats == #[trigger] all[j] by {
            if j < before.len() {
                assert(all[j] == before[j]);
                let i = choose|i: int|
                    0 <= i < earlier.len() && space.in_flight.contains_key(#[trigger] earlier[i])
                        && space.in_flight[earlier[i]].stats == before[j];
                assert(ack[i] == earlier[i]);
            } else {
                assert(ack[ack.len() - 1] == seq);
            }
        }
    }
}

/// An acknowledgement of a single packet reports what was recorded of it if it was on its way,
/// and nothing otherwise.
pub proof fn law_single_ack<S>(space: SendSpaceView<S>, seq: u64)
    ensures
        space.in_flight.contains_key(seq) ==> space.acked(seq![seq])
            == seq![space.in_flight[seq].stats],
        !space.in_flight.contains_key(seq) ==> space.acked(seq![seq]).len() == 0,
{
    let ack = seq![seq];
    assert(ack.drop_last() =~= Seq::<u64>::empty());
    assert(space.acked(ack.drop_last()) =~= Seq::<S>::empty());
    if space.in_flight.contains_key(seq) {
        assert(space.acked(ack) =~= seq![space.in_flight[seq].stats]);
    }
}

/// One acknowledgement of many packets comes to the same as two, one after the other, that name
/// the same packets in the same order: in what stays on its way and in what is reported.
pub proof fn law_acks_join<S>(space: SendSpaceView<S>, first: Seq<u64>, second: Seq<u64>)
    ensures
        space.ack(first + second) == space.ack(first).ack(second),
        space.acked(first + second) == space.acked(first) + space.ack(first).acked(second),
    decreases second.len(),
{
    let both = first + second;
    assert forall|seq: u64| both.contains(seq) == (first.contains(seq) || second.contains(seq)) by {
        if first.contains(seq) {
            assert(both[first.index_of(seq)] == seq);
        }
        if second.contains(seq) {
            assert(both[first.len() + second.index_of(seq)] == seq);
        }
    }
    assert(space.ack(both) =~= space.ack(first).ack(second));
    if second.len() == 0 {
        assert(both =~= first);
        assert(space.acked(both) =~= space.acked(first) + space.ack(first).acked(second));
    } else {
        let earlier = second.drop_last();
        let seq = second.last();
        law_acks_join(space, first, earlier);
        assert(both.drop_last() =~= first + earlier);
        assert((first + earlier).contains(seq) == (first.contains(seq) || earlier.contains(
            seq,
        ))) by {
            if first.contains(seq) {
                assert((first + earlier)[first.index_of(seq)] == seq);
            }
            if earlier.contains(seq) {
                assert((first + earlier)[first.len() + earlier.index_of(seq)] == seq);
            }
        }
        assert(space.acked(both) =~= space.acked(first) + space.ack(first).acked(second));
    }
}

/// Two spaces with the same packets on their way agree on the next number, on which packets those
/// are, and on what each carries.
pub proof fn law_same_packets<S>(space: SendSpaceView<S>, other: SendSpaceView<S>, seq: u64)
    requires
        space.has_packets_of(other),
    ensures
        space.next_seq == other.next_seq,
        space.in_flight.contains_key(seq) == other.in_flight.contains_key(seq),
        space.in_flight.contains_key(seq) ==> space.in_flight[seq].data
            == other.in_flight[seq].data,
{
    assert(space.in_flight.dom().contains(seq) == other.in_flight.dom().contains(seq));
}

} // verus!
