//! What a caller sees of single calls, whatever state the connection is in.

use crate::packet_recv_space::RecvSpaceView;
use crate::rate::LossLevel;
use crate::reliable_layer::AckedPacket;
use crate::reliable_layer::DataPacket;
use crate::reliable_layer::Gauges;
use crate::reliable_layer::Log;
use crate::reliable_layer::RecvView;
use crate::reliable_layer::ReliableLayer;
use crate::reliable_layer::SendStep;
use crate::reliable_layer::MSS;
use crate::reliable_layer::NO_RTT_NANOS;
use crate::transport::QueueState;
use crate::transport::TransportError;
use vstd::prelude::*;

verus! {

/// A write that fits is taken whole, and any other until the buffer is full. What was taken
/// follows the bytes that waited before. The receiving side is left alone.
pub proof fn law_write_call<S>(layer: &mut ReliableLayer<S>, buf: &[u8], written: usize)
    requires
        old(layer).wf(),
        call_ensures(ReliableLayer::<S>::send_data_buf, (layer, buf), written),
    ensures
        old(layer).sender().unsent.len() + buf@.len() <= old(layer).sender().limit ==> written
            == buf@.len(),
        old(layer).sender().unsent.len() + buf@.len() > old(layer).sender().limit ==> written
            == old(layer).sender().limit - old(layer).sender().unsent.len(),
        final(layer).sender().unsent == old(layer).sender().unsent + buf@.take(written as int),
        final(layer).sender().limit == old(layer).sender().limit,
        final(layer).sender().space == old(layer).sender().space,
        final(layer).receiver() == old(layer).receiver(),
{
    old(layer).law_limits_hold();
    crate::sender_laws::law_write_takes_all_that_fits(old(layer).sender(), buf@);
}

/// Without a token nothing is sent and the caller's buffer stays as it was. With one, a packet
/// that is due and not acknowledged is written to the buffer as it was sent first. Else there is
/// a new packet to send, exactly if there is a byte to send and a place for it.
pub proof fn law_send_call<S>(
    layer: &ReliableLayer<S>,
    packet: &mut [u8],
    token_taken: bool,
    due: Option<u64>,
    step: SendStep,
)
    requires
        layer.wf(),
        call_ensures(
            ReliableLayer::<S>::send_data_packet,
            (layer, packet, token_taken, due),
            step,
        ),
    ensures
        !token_taken ==> step == SendStep::Nothing,
        token_taken && (due matches Some(seq) && layer.sender().space.in_flight.contains_key(seq))
            ==> {
            &&& step matches SendStep::Sent(p)
            &&& due == Some(p.seq)
            &&& p.data_written == layer.sender().space.in_flight[p.seq].data.len()
            &&& layer.sender().space.in_flight[p.seq].data.is_prefix_of(final(packet)@)
        },
        token_taken && (due matches Some(seq) ==> !layer.sender().space.in_flight.contains_key(
            seq,
        )) ==> (step is New <==> layer.sender().unsent.len() > 0 && old(packet)@.len() > 0) && (
        step is Nothing <==> layer.sender().unsent.len() == 0 || old(packet)@.len() == 0),
        step matches SendStep::New { no_packets_in_flight } ==> (no_packets_in_flight <==> (forall|
            seq: u64,
        | !#[trigger] layer.sender().space.in_flight.contains_key(seq))),
        step !is Sent ==> final(packet)@ == old(packet)@,
{
    let tx = layer.sender();
    let room = old(packet)@.len();
    layer.law_limits_hold();
    if !token_taken {
        crate::sender_laws::law_nothing_is_sent_without_token(tx, room, due);
    } else if due is Some && tx.space.in_flight.contains_key(due->0) {
        crate::sender_laws::law_due_packet_goes_first(tx, room, due->0);
    } else {
        crate::sender_laws::law_new_packet_is_sent_if_it_can_be(tx, room, due);
    }
}

/// A new packet carries the first bytes that waited, as many as its limit, the caller's buffer and
/// the waiting bytes allow. They are in the caller's buffer, and they are kept under the number
/// that the caller is told. Without a byte to send or a place for it nothing happens.
pub proof fn law_send_new_call<S>(
    layer: &mut ReliableLayer<S>,
    packet: &mut [u8],
    stats: S,
    sent: Option<DataPacket>,
)
    requires
        old(layer).wf(),
        old(layer).sender().space.next_seq < u64::MAX,
        call_ensures(ReliableLayer::<S>::send_new_packet, (layer, packet, stats), sent),
    ensures
        sent is Some <==> old(layer).sender().unsent.len() > 0 && old(packet)@.len() > 0,
        sent is None ==> final(layer).sender() == old(layer).sender() && final(packet)@ == old(
            packet,
        )@,
        sent matches Some(p) ==> {
            let n = p.data_written as int;
            let before = old(layer).sender();
            let after = final(layer).sender();
            &&& 0 < n <= MSS
            &&& n == old(packet)@.len() || n == MSS || n == before.unsent.len()
            &&& p.seq == before.space.next_seq
            &&& final(packet)@.take(n) + after.unsent == before.unsent
            &&& final(packet)@.skip(n) == old(packet)@.skip(n)
            &&& after.space.in_flight.contains_key(p.seq)
            &&& after.space.in_flight[p.seq].data == final(packet)@.take(n)
            &&& after.space.in_flight[p.seq].stats == stats
            &&& after.space.next_seq == before.space.next_seq + 1
            &&& after.limit == before.limit
        },
        final(layer).receiver() == old(layer).receiver(),
{
    let tx = old(layer).sender();
    let room = old(packet)@.len();
    old(layer).law_limits_hold();
    crate::sender_laws::law_new_packet_is_as_long_as_it_can_be(tx, room);
    crate::sender_laws::law_new_packet_moves_bytes_on_their_way(tx, room, stats);
    if let Some(p) = sent {
        let n = p.data_written as int;
        assert(final(packet)@.take(n) =~= tx.new_packet(room));
        assert(final(packet)@.skip(n) =~= old(packet)@.skip(n));
    }
}

/// After an acknowledgement, however long, no packet that it names is on its way, and every other
/// one is as before. What was recorded of each named packet that was on its way is returned, the
/// one named last first, and counts once. The bytes that wait and the receiving side are left
/// alone.
pub proof fn law_ack_call<S>(
    layer: &mut ReliableLayer<S>,
    ack: &[u64],
    acked: Vec<AckedPacket<S>>,
)
    requires
        old(layer).wf(),
        call_ensures(ReliableLayer::<S>::recv_ack_packet, (layer, ack), acked),
    ensures
        forall|i: int|
            0 <= i < ack@.len() ==> !final(layer).sender().space.in_flight.contains_key(
                #[trigger] ack@[i],
            ),
        forall|seq: u64|
            !ack@.contains(seq) && #[trigger] old(layer).sender().space.in_flight.contains_key(seq)
                ==> {
                &&& final(layer).sender().space.in_flight.contains_key(seq)
                &&& final(layer).sender().space.in_flight[seq]
                    == old(layer).sender().space.in_flight[seq]
            },
        final(layer).sender().space.in_flight.dom().len() + acked@.len() == old(
            layer,
        ).sender().space.in_flight.dom().len(),
        forall|i: int|
            0 <= i < ack@.len() && old(layer).sender().space.in_flight.contains_key(
                #[trigger] ack@[i],
            ) ==> exists|j: int|
                0 <= j < acked@.len() && (#[trigger] acked@[j]).state
                    == old(layer).sender().space.in_flight[ack@[i]].stats,
        forall|j: int| 0 <= j < acked@.len() ==> (#[trigger] acked@[j]).data_length == 1,
        forall|j: int|
            0 <= j < acked@.len() ==> (#[trigger] acked@[j]).state == old(
                layer,
            ).sender().space.acked(ack@)[acked@.len() - 1 - j],
        final(layer).sender().unsent == old(layer).sender().unsent,
        final(layer).sender().limit == old(layer).sender().limit,
        final(layer).receiver() == old(layer).receiver(),
{
    let space = old(layer).sender().space;
    old(layer).law_limits_hold();
    crate::sender_laws::law_acked_packets_leave(space, ack@);
    crate::sender_laws::law_ack_reports_what_was_recorded(space, ack@);
    crate::laws::law_ack_reports_each_packet_once(space, ack@);
    let states = space.acked(ack@);
    assert forall|i: int|
        0 <= i < ack@.len() && space.in_flight.contains_key(#[trigger] ack@[i]) implies exists|
        j: int,
    | 0 <= j < acked@.len() && (#[trigger] acked@[j]).state == space.in_flight[ack@[i]].stats by {
        let k = states.index_of(space.in_flight[ack@[i]].stats);
        assert(acked@[states.len() - 1 - k].state == states[k]);
    }
}

/// A packet that has arrived is rejected only if the window does not reach its number, or if no
/// number could follow it, and then nothing changes. Otherwise it is held with its bytes or taken
/// into the stream. The bytes that wait to be read stay in front. The sending side is left alone.
pub proof fn law_arrival_call<S>(
    layer: &mut ReliableLayer<S>,
    seq: u64,
    packet: &[u8],
    accepted: bool,
)
    requires
        old(layer).wf(),
        call_ensures(ReliableLayer::<S>::recv_data_packet, (layer, seq, packet), accepted),
    ensures
        accepted <==> seq < old(layer).receiver().space.next_seq + old(
            layer,
        ).receiver().space.window && seq < u64::MAX,
        !accepted ==> final(layer).receiver() == old(layer).receiver(),
        accepted ==> {
            ||| seq < final(layer).receiver().space.next_seq
            ||| final(layer).receiver().space.held.contains_key(seq)
                && final(layer).receiver().space.held[seq] == packet@
        },
        final(layer).receiver().space.next_seq >= old(layer).receiver().space.next_seq,
        old(layer).receiver().unread.is_prefix_of(final(layer).receiver().unread),
        final(layer).sender() == old(layer).sender(),
{
    let rx = old(layer).receiver();
    old(layer).law_limits_hold();
    crate::receiver_laws::law_only_the_window_rejects(rx.space, seq);
    crate::receiver_laws::law_packet_in_window_is_received(rx, seq, packet@, seq);
    if seq < rx.space.next_seq {
        crate::receiver_laws::law_copy_of_taken_packet_is_dropped(rx, seq, packet@);
        crate::receiver_laws::law_moved_packets_join_the_stream(rx);
    } else if accepted {
        crate::receiver_laws::law_moved_packets_join_the_stream(
            RecvView {
                space: RecvSpaceView {
                    held: rx.space.held.insert(seq, packet@),
                    ..rx.space
                },
                ..rx
            },
        );
    }
}

/// A read gives the first bytes that wait, as many as the buffer takes, and leaves the others in
/// front of what follows. The sending side is left alone.
pub proof fn law_read_call<S>(layer: &mut ReliableLayer<S>, buf: &mut [u8], read: usize)
    requires
        old(layer).wf(),
        call_ensures(ReliableLayer::<S>::recv_data_buf, (layer, buf), read),
    ensures
        old(layer).receiver().unread.len() <= old(buf)@.len() ==> read == old(
            layer,
        ).receiver().unread.len(),
        old(layer).receiver().unread.len() > old(buf)@.len() ==> read == old(buf)@.len(),
        old(layer).receiver().unread.is_prefix_of(
            final(buf)@.take(read as int) + final(layer).receiver().unread,
        ),
        final(buf)@.skip(read as int) == old(buf)@.skip(read as int),
        final(layer).sender() == old(layer).sender(),
{
    let rx = old(layer).receiver();
    let room = old(buf)@.len();
    old(layer).law_limits_hold();
    crate::receiver_laws::law_read_gives_all_that_fits(rx, room);
    let rest = RecvView { unread: rx.unread.skip(read as int), ..rx };
    crate::receiver_laws::law_moved_packets_join_the_stream(rest);
    assert(final(buf)@.take(read as int) =~= rx.unread.take(read as int));
    assert(final(buf)@.skip(read as int) =~= old(buf)@.skip(read as int));
    assert(rest.unread =~= if rx.unread.len() <= room {
        Seq::empty()
    } else {
        rx.unread.subrange(room as int, rx.unread.len() as int)
    });
}

/// A packet that comes out of a queue is delivered whole if it fits, and fills the buffer if it
/// does not. An empty queue makes the caller wait, and one that has ended ends the stream.
pub proof fn law_queue_call(
    received: Result<Vec<u8>, QueueState>,
    buf: &mut [u8],
    result: Result<usize, TransportError>,
)
    requires
        call_ensures(crate::transport::try_recv_packet, (received, buf), result),
    ensures
        received matches Ok(packet) ==> {
            &&& packet@.len() <= old(buf)@.len() ==> result == Ok::<usize, TransportError>(
                packet.len(),
            )
            &&& packet@.len() <= old(buf)@.len() ==> packet@.is_prefix_of(final(buf)@)
            &&& packet@.len() > old(buf)@.len() ==> result is Ok && result->Ok_0 == old(buf)@.len()
            &&& packet@.len() > old(buf)@.len() ==> final(buf)@.is_prefix_of(packet@)
        },
        received matches Err(state) ==> {
            &&& final(buf)@ == old(buf)@
            &&& result is Err
            &&& result->Err_0 == TransportError::WouldBlock <==> state == QueueState::Empty
            &&& result->Err_0 == TransportError::UnexpectedEof <==> state
                == QueueState::Disconnected
        },
{
    if let Ok(packet) = received {
        crate::transport::law_all_that_fits_is_delivered(packet@, old(buf)@);
        assert(old(buf)@.len() == old(buf).len());
    }
}

/// A packet that a queue gives in the end is delivered whole if it fits, and fills the buffer if
/// it does not. Without one the stream has ended.
pub proof fn law_awaited_queue_call(
    received: Option<Vec<u8>>,
    buf: &mut [u8],
    result: Result<usize, TransportError>,
)
    requires
        call_ensures(crate::transport::recv_packet, (received, buf), result),
    ensures
        received matches Some(packet) ==> {
            &&& packet@.len() <= old(buf)@.len() ==> result == Ok::<usize, TransportError>(
                packet.len(),
            )
            &&& packet@.len() <= old(buf)@.len() ==> packet@.is_prefix_of(final(buf)@)
            &&& packet@.len() > old(buf)@.len() ==> result is Ok && result->Ok_0 == old(buf)@.len()
            &&& packet@.len() > old(buf)@.len() ==> final(buf)@.is_prefix_of(packet@)
        },
        received is None ==> {
            &&& final(buf)@ == old(buf)@
            &&& result == Err::<usize, TransportError>(TransportError::UnexpectedEof)
        },
{
    if let Some(packet) = received {
        crate::transport::law_all_that_fits_is_delivered(packet@, old(buf)@);
        assert(old(buf)@.len() == old(buf).len());
    }
}

/// A new connection has nothing to send or to read, the whole of both buffers and the window that
/// was asked for.
pub proof fn law_new_call<S>(recv_window: u64, layer: ReliableLayer<S>)
    requires
        call_ensures(ReliableLayer::<S>::new, (recv_window,), layer),
    ensures
        layer.wf(),
        layer.sender().unsent.len() == 0,
        layer.sender().limit == 0x20000,
        layer.sender().space.next_seq == 0,
        forall|seq: u64| !#[trigger] layer.sender().space.in_flight.contains_key(seq),
        layer.receiver().unread.len() == 0,
        layer.receiver().limit == 0x20000,
        layer.receiver().space.next_seq == 0,
        layer.receiver().space.window == recv_window,
        forall|seq: u64| !#[trigger] layer.receiver().space.held.contains_key(seq),
{
    crate::sender_laws::law_sizes();
    crate::sender_laws::law_new_sender_is_empty::<S>();
    crate::receiver_laws::law_new_receiver_is_empty(recv_window as nat);
}

/// The estimate is told of the packets on their way unless the loss shows that the path is full.
pub proof fn law_phase_call<S>(layer: &ReliableLayer<S>, loss: LossLevel, pipe: Option<u64>)
    requires
        call_ensures(
            ReliableLayer::<S>::detect_application_limited_phases,
            (layer, loss),
            pipe,
        ),
    ensures
        pipe is None <==> loss is High || loss is Total,
        pipe matches Some(n) ==> n == layer.sender().space.in_flight.dom().len(),
{
    crate::rate::law_full_path_is_not_application_limited(loss);
}

/// A log counts the packets on their way and those held back, names the next number of either
/// direction, and gives times in whole milliseconds, rounded down. A least round-trip time that
/// was not measured is left out.
pub proof fn law_log_call<S, F>(layer: &ReliableLayer<S>, gauges: Gauges<F>, log: Log<F>)
    requires
        call_ensures(ReliableLayer::<S>::log::<F>, (layer, gauges), log),
    ensures
        log.num_tx_pkts == layer.sender().space.in_flight.dom().len(),
        log.num_rx_pkts == layer.receiver().space.held.dom().len(),
        log.send_seq == layer.sender().space.next_seq,
        log.recv_seq == layer.receiver().space.next_seq,
        log.rtt * 1_000_000 <= gauges.smooth_rtt_nanos < (log.rtt + 1) * 1_000_000,
        log.min_rtt is None <==> gauges.min_rtt_nanos == NO_RTT_NANOS,
        log.min_rtt matches Some(t) ==> t * 1_000_000 <= gauges.min_rtt_nanos < (t + 1)
            * 1_000_000,
        log.tokens == gauges.tokens,
        log.send_rate == gauges.send_rate,
        log.loss_rate == gauges.loss_rate,
        log.num_rt_pkts == gauges.num_rt_pkts,
{
}

} // verus!
