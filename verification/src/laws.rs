//! What holds of two ends of a connection together.

use crate::packet_recv_space::RecvSpaceView;
use crate::packet_send_space::SendSpaceView;
use crate::reliable_layer::DataPacket;
use crate::reliable_layer::RecvView;
use crate::reliable_layer::SendStep;
use crate::reliable_layer::SendView;
use crate::reliable_layer::MSS;
use crate::reliable_layer::RECV_DATA_BUFFER_LENGTH;
use crate::reliable_layer::SEND_DATA_BUFFER_LENGTH;
use vstd::prelude::*;

verus! {

/// One direction of a connection: the sender at one end, the receiver at the other, and what
/// has passed between the applications.
#[verifier::ext_equal]
pub struct Session<S> {
    /// All bytes that the sending application has written.
    pub written: Seq<u8>,
    /// The payloads of all packets that were ever sent, by sequence number.
    pub packets: Seq<Seq<u8>>,
    /// The sending end.
    pub tx: SendView<S>,
    /// The receiving end.
    pub rx: RecvView,
    /// All bytes that the receiving application has read.
    pub read: Seq<u8>,
    /// All numbers that an acknowledgement has ever named.
    pub acked: Set<u64>,
}

/// Something that happens in a session.
pub enum Event<S> {
    /// The application writes.
    Write(Seq<u8>),
    /// A new packet is sent, from a buffer of `room` bytes.
    Send { room: nat, stats: S },
    /// An acknowledgement reaches the sender. It may name anything.
    Ack(Seq<u64>),
    /// A copy of the packet with this number reaches the receiver: the first or a later one.
    Arrive(u64),
    /// The application reads, into a buffer of this many bytes.
    Read(nat),
}

impl<S> Session<S> {
    /// A session in which nothing has happened.
    pub open spec fn start(window: nat) -> Self {
        Session {
            written: Seq::empty(),
            packets: Seq::empty(),
            tx: SendView::empty(),
            rx: RecvView::empty(window),
            read: Seq::empty(),
            acked: Set::empty(),
        }
    }

    /// The event can happen: new packets carry a byte and have a number left, and no packet
    /// arrives that was not sent.
    pub open spec fn can_happen(self, event: Event<S>) -> bool {
        match event {
            Event::Send { room, stats } => {
                &&& self.tx.new_packet_len(room) > 0
                &&& self.tx.space.next_seq < u64::MAX
            },
            Event::Arrive(seq) => seq < self.packets.len(),
            _ => true,
        }
    }

    /// The session after the event.
    pub open spec fn after(self, event: Event<S>) -> Self {
        match event {
            Event::Write(bytes) => Session {
                written: self.written + bytes.take(self.tx.writable(bytes.len()) as int),
                tx: self.tx.write(bytes),
                ..self
            },
            Event::Send { room, stats } => Session {
                packets: self.packets.push(self.tx.new_packet(room)),
                tx: self.tx.send_new(room, stats),
                ..self
            },
            Event::Ack(ack) => Session {
                tx: self.tx.ack(ack),
                acked: self.acked.union(ack.to_set()),
                ..self
            },
            Event::Arrive(seq) => Session {
                rx: self.rx.arrive(seq, self.packets[seq as int]),
                ..self
            },
            Event::Read(room) => Session {
                read: self.read + self.rx.unread.take(self.rx.readable(room) as int),
                rx: self.rx.read(room),
                ..self
            },
        }
    }

    /// The session after all events, in order.
    pub open spec fn after_all(self, events: Seq<Event<S>>) -> Self
        decreases events.len(),
    {
        if events.len() == 0 {
            self
        } else {
            self.after_all(events.drop_last()).after(events.last())
        }
    }

    /// Each event can happen when its turn comes.
    pub open spec fn can_all_happen(self, events: Seq<Event<S>>) -> bool
        decreases events.len(),
    {
        events.len() > 0 ==> {
            &&& self.can_all_happen(events.drop_last())
            &&& self.after_all(events.drop_last()).can_happen(events.last())
        }
    }

    /// The sender keeps every written byte, in the packets, in order, or in its buffer, and
    /// every packet that no acknowledgement has named.
    pub open spec fn sender_keeps(self) -> bool {
        &&& self.tx.wf()
        &&& self.tx.space.next_seq == self.packets.len()
        &&& self.written == self.packets.flatten() + self.tx.unsent
        &&& forall|i: int|
            0 <= i < self.packets.len() ==> 0 < (#[trigger] self.packets[i]).len() <= MSS
        &&& forall|seq: u64| #[trigger]
            self.tx.space.in_flight.contains_key(seq) ==> self.tx.space.in_flight[seq].data
                == self.packets[seq as int]
        &&& forall|seq: u64|
            seq < self.packets.len() && !self.acked.contains(seq)
                ==> #[trigger] self.tx.space.in_flight.contains_key(seq)
    }

    /// The receiver has the packets up to its next one, in order, and holds true copies of some
    /// later ones.
    pub open spec fn receiver_keeps(self) -> bool {
        &&& self.rx.wf()
        &&& self.rx.space.next_seq <= self.packets.len()
        &&& self.read + self.rx.unread == self.packets.take(
            self.rx.space.next_seq as int,
        ).flatten()
        &&& forall|seq: u64| #[trigger]
            self.rx.space.held.contains_key(seq) ==> seq < self.packets.len()
                && self.rx.space.held[seq] == self.packets[seq as int]
    }

    /// What holds of a session at every moment.
    pub open spec fn sound(self) -> bool {
        &&& self.sender_keeps()
        &&& self.receiver_keeps()
        &&& !self.rx.can_move()
    }

    /// The packet with this number has reached the receiver and was accepted.
    pub open spec fn has_arrived(self, seq: u64) -> bool {
        seq < self.rx.space.next_seq || self.rx.space.held.contains_key(seq)
    }

    /// Every packet has reached the receiver at least once and was accepted.
    pub open spec fn all_arrived(self) -> bool {
        forall|seq: u64|
            self.rx.space.next_seq <= seq < self.packets.len()
                ==> #[trigger] self.rx.space.held.contains_key(seq)
    }

    /// The session after `rounds` reads, each of all there is to read.
    pub open spec fn after_full_reads(self, rounds: nat) -> Self
        decreases rounds,
    {
        if rounds == 0 {
            self
        } else {
            self.after(Event::Read(self.rx.unread.len())).after_full_reads((rounds - 1) as nat)
        }
    }
}

/// Moving packets keeps to the limits, puts bytes only behind those that wait to be read, and
/// goes on until the next packet is missing or has no room: moving again changes nothing.
pub proof fn law_all_that_fits_is_moved(rx: RecvView)
    requires
        rx.wf(),
    ensures
        rx.settle().wf(),
        rx.settle().limit == rx.limit,
        rx.unread.is_prefix_of(rx.settle().unread),
        !rx.settle().can_move(),
        rx.settle().settle() == rx.settle(),
    decreases u64::MAX - rx.space.next_seq,
{
    if rx.can_move() {
        law_all_that_fits_is_moved(rx.move_one());
    }
}

/// Moving packets keeps the receiver in step with the packets sent, and moves on whenever it
/// can.
proof fn lemma_settle<S>(session: Session<S>)
    requires
        session.receiver_keeps(),
    ensures
        (Session { rx: session.rx.settle(), ..session }).receiver_keeps(),
        session.rx.settle().space.next_seq >= session.rx.space.next_seq,
        session.rx.can_move() ==> session.rx.settle().space.next_seq > session.rx.space.next_seq,
        session.all_arrived() ==> (Session { rx: session.rx.settle(), ..session }).all_arrived(),
    decreases u64::MAX - session.rx.space.next_seq,
{
    if session.rx.can_move() {
        let n = session.rx.space.next_seq as int;
        let moved = Session { rx: session.rx.move_one(), ..session };
        let packets = session.packets;
        assert(session.rx.space.held.contains_key(n as u64));
        assert(packets.take(n + 1) =~= packets.take(n).push(packets[n]));
        packets.take(n).lemma_flatten_push(packets[n]);
        assert(moved.read + moved.rx.unread =~= session.read + session.rx.unread + packets[n]);
        lemma_settle(moved);
    }
}

/// The bytes in a prefix of the packets are a prefix of the bytes in all of them.
proof fn lemma_flatten_prefix(packets: Seq<Seq<u8>>, n: int)
    requires
        0 <= n <= packets.len(),
    ensures
        packets.take(n).flatten().is_prefix_of(packets.flatten()),
    decreases packets.len() - n,
{
    if n == packets.len() {
        assert(packets.take(n) =~= packets);
    } else {
        lemma_flatten_prefix(packets, n + 1);
        assert(packets.take(n + 1) =~= packets.take(n).push(packets[n]));
        packets.take(n).lemma_flatten_push(packets[n]);
    }
}

/// A session starts sound.
pub proof fn law_session_starts_sound<S>(window: nat)
    ensures
        Session::<S>::start(window).sound(),
{
    let start = Session::<S>::start(window);
    assert(start.packets.take(0) =~= Seq::<Seq<u8>>::empty());
    assert(start.written =~= start.packets.flatten() + start.tx.unsent);
    assert(start.read + start.rx.unread =~= start.packets.take(0).flatten());
}

/// Whatever happens, a sound session stays sound and keeps the length of its buffers.
pub proof fn law_session_stays_sound<S>(session: Session<S>, event: Event<S>)
    requires
        session.sound(),
        session.can_happen(event),
    ensures
        session.after(event).sound(),
        session.after(event).tx.limit == session.tx.limit,
        session.after(event).rx.limit == session.rx.limit,
{
    let next = session.after(event);
    match event {
        Event::Write(bytes) => {
            let taken = bytes.take(session.tx.writable(bytes.len()) as int);
            assert(next.written =~= session.packets.flatten() + (session.tx.unsent + taken));
        },
        Event::Send { room, stats } => {
            let data = session.tx.new_packet(room);
            let n = session.tx.new_packet_len(room) as int;
            session.packets.lemma_flatten_push(data);
            assert(session.tx.unsent =~= data + session.tx.unsent.skip(n));
            assert(next.written =~= next.packets.flatten() + next.tx.unsent);
            assert(next.packets.take(next.rx.space.next_seq as int) =~= session.packets.take(
                next.rx.space.next_seq as int,
            ));
        },
        Event::Ack(ack) => {},
        Event::Arrive(seq) => {
            if session.rx.space.accepts(seq) {
                let data = session.packets[seq as int];
                let offered = Session {
                    rx: RecvView { space: session.rx.space.offer(seq, data), ..session.rx },
                    ..session
                };
                lemma_settle(offered);
                law_all_that_fits_is_moved(offered.rx);
            }
        },
        Event::Read(room) => {
            let n = session.rx.readable(room) as int;
            let taken = Session {
                read: session.read + session.rx.unread.take(n),
                rx: RecvView { unread: session.rx.unread.skip(n), ..session.rx },
                ..session
            };
            assert(taken.read + taken.rx.unread =~= session.read + session.rx.unread);
            lemma_settle(taken);
            law_all_that_fits_is_moved(taken.rx);
        },
    }
}

/// However packets are delayed, lost, repeated or swapped, and whatever is acknowledged, a
/// session is sound after any run of events, and both ends keep the whole of their buffers.
pub proof fn law_every_run_is_sound<S>(window: nat, events: Seq<Event<S>>)
    requires
        Session::<S>::start(window).can_all_happen(events),
    ensures
        Session::<S>::start(window).after_all(events).sound(),
        Session::<S>::start(window).after_all(events).tx.limit == SEND_DATA_BUFFER_LENGTH,
        Session::<S>::start(window).after_all(events).rx.limit == RECV_DATA_BUFFER_LENGTH,
    decreases events.len(),
{
    if events.len() == 0 {
        law_session_starts_sound::<S>(window);
    } else {
        law_every_run_is_sound(window, events.drop_last());
        law_session_stays_sound(
            Session::<S>::start(window).after_all(events.drop_last()),
            events.last(),
        );
    }
}

/// What was read is a prefix of what was written: no byte is lost, repeated or out of place.
pub proof fn law_read_is_prefix_of_written<S>(session: Session<S>)
    requires
        session.sound(),
    ensures
        session.read.is_prefix_of(session.written),
        (session.read + session.rx.unread).is_prefix_of(session.written),
{
    let n = session.rx.space.next_seq as int;
    lemma_flatten_prefix(session.packets, n);
    let arrived = session.packets.take(n).flatten();
    assert(session.read.is_prefix_of(arrived)) by {
        assert(forall|i: int|
            0 <= i < session.read.len() ==> session.read[i] == (session.read
                + session.rx.unread)[i]);
    }
}

/// Once every packet has arrived, all that was sent is there to be read, unless the bytes not
/// read yet leave no room for the next packet.
pub proof fn law_arrived_is_readable<S>(session: Session<S>)
    requires
        session.sound(),
        session.all_arrived(),
        session.rx.unread.len() + MSS <= session.rx.limit,
    ensures
        session.read + session.rx.unread + session.tx.unsent == session.written,
{
    let n = session.rx.space.next_seq as int;
    if n < session.packets.len() {
        assert(session.rx.space.held.contains_key(n as u64));
        assert(session.rx.can_move());
    }
    assert(session.packets.take(n) =~= session.packets);
}

/// Once every packet has arrived, reading all there is to read makes room for the next packet,
/// if the buffer can hold a packet at all.
pub proof fn law_reading_makes_progress<S>(session: Session<S>)
    requires
        session.sound(),
        session.all_arrived(),
        session.rx.space.next_seq < session.packets.len(),
        session.rx.limit >= MSS,
    ensures
        session.after(Event::Read(session.rx.unread.len())).sound(),
        session.after(Event::Read(session.rx.unread.len())).all_arrived(),
        session.after(Event::Read(session.rx.unread.len())).rx.space.next_seq
            > session.rx.space.next_seq,
{
    let room = session.rx.unread.len();
    law_session_stays_sound(session, Event::Read(room));
    let taken = Session {
        read: session.read + session.rx.unread.take(room as int),
        rx: RecvView { unread: session.rx.unread.skip(room as int), ..session.rx },
        ..session
    };
    assert(taken.read + taken.rx.unread =~= session.read + session.rx.unread);
    let n = session.rx.space.next_seq;
    assert(session.rx.space.held.contains_key(n as u64));
    assert(taken.rx.can_move());
    lemma_settle(taken);
}

/// Once every packet has arrived, repeated reading gives back all that was sent, at the latest
/// after one read more than there are packets left, if the buffer can hold a packet at all.
pub proof fn law_everything_sent_is_read<S>(session: Session<S>, rounds: nat)
    requires
        session.sound(),
        session.all_arrived(),
        session.rx.limit >= MSS,
        rounds > session.packets.len() - session.rx.space.next_seq,
    ensures
        session.after_full_reads(rounds).read + session.tx.unsent == session.written,
    decreases rounds,
{
    let room = session.rx.unread.len();
    let next = session.after(Event::Read(room));
    law_session_stays_sound(session, Event::Read(room));
    if session.rx.space.next_seq < session.packets.len() {
        law_reading_makes_progress(session);
        law_everything_sent_is_read(next, (rounds - 1) as nat);
    } else {
        lemma_all_read(session, rounds);
    }
}

proof fn lemma_all_read<S>(session: Session<S>, rounds: nat)
    requires
        session.sound(),
        session.rx.space.next_seq == session.packets.len(),
        rounds > 0 || session.rx.unread.len() == 0,
    ensures
        session.after_full_reads(rounds).read + session.tx.unsent == session.written,
    decreases rounds,
{
    let n = session.rx.space.next_seq as int;
    assert(session.packets.take(n) =~= session.packets);
    if rounds == 0 {
        assert(session.read + session.rx.unread =~= session.read);
    } else {
        let room = session.rx.unread.len();
        let next = session.after(Event::Read(room));
        law_session_stays_sound(session, Event::Read(room));
        let taken = RecvView { unread: session.rx.unread.skip(room as int), ..session.rx };
        assert(!taken.can_move()) by {
            if taken.can_move() {
                assert(session.rx.space.held.contains_key(n as u64));
            }
        }
        assert(next.rx == taken);
        lemma_all_read(next, (rounds - 1) as nat);
    }
}

/// A packet that is sent once more carries the same bytes as the first time.
pub proof fn law_retransmission_repeats_packet<S>(
    session: Session<S>,
    room: nat,
    due: Option<u64>,
    packet: DataPacket,
)
    requires
        session.sound(),
        session.tx.next_step(room, true, due) == SendStep::Sent(packet),
    ensures
        packet.seq < session.packets.len(),
        session.tx.space.in_flight[packet.seq].data == session.packets[packet.seq as int],
        packet.data_written == session.packets[packet.seq as int].len(),
{
}

/// The packets of a session only grow: a sequence number carries the same bytes throughout a
/// run.
pub proof fn law_packets_only_grow<S>(session: Session<S>, events: Seq<Event<S>>, k: int, i: int)
    requires
        0 <= k <= events.len(),
        0 <= i < session.after_all(events.take(k)).packets.len(),
    ensures
        i < session.after_all(events).packets.len(),
        session.after_all(events).packets[i] == session.after_all(events.take(k)).packets[i],
    decreases events.len(),
{
    if k == events.len() {
        assert(events.take(k) =~= events);
    } else {
        assert(events.drop_last().take(k) =~= events.take(k));
        law_packets_only_grow(session, events.drop_last(), k, i);
    }
}

/// A packet that has not arrived can be sent once more, if only packets that have arrived are
/// acknowledged.
pub proof fn law_missing_packet_can_be_repeated<S>(session: Session<S>, room: nat, seq: u64)
    requires
        session.sound(),
        forall|k: u64| #[trigger] session.acked.contains(k) ==> session.has_arrived(k),
        seq < session.packets.len(),
        !session.has_arrived(seq),
    ensures
        session.tx.next_step(room, true, Some(seq)) == SendStep::Sent(
            DataPacket { seq, data_written: session.packets[seq as int].len() as usize },
        ),
{
    assert(session.tx.space.in_flight.contains_key(seq));
}

/// A packet that has arrived stays arrived, whatever happens.
pub proof fn law_arrived_stays_arrived<S>(session: Session<S>, event: Event<S>, seq: u64)
    requires
        session.sound(),
        session.can_happen(event),
        session.has_arrived(seq),
    ensures
        session.after(event).has_arrived(seq),
{
    match event {
        Event::Arrive(k) => {
            if session.rx.space.accepts(k) {
                let data = session.packets[k as int];
                lemma_settle_keeps_arrived(
                    RecvView { space: session.rx.space.offer(k, data), ..session.rx },
                    seq,
                );
            }
        },
        Event::Read(room) => {
            let n = session.rx.readable(room) as int;
            lemma_settle_keeps_arrived(
                RecvView { unread: session.rx.unread.skip(n), ..session.rx },
                seq,
            );
        },
        _ => {},
    }
}

/// A packet that the receiver accepts has arrived.
pub proof fn law_accepted_has_arrived<S>(session: Session<S>, seq: u64)
    requires
        session.sound(),
        session.can_happen(Event::Arrive(seq)),
        session.rx.space.accepts(seq),
    ensures
        session.after(Event::Arrive(seq)).has_arrived(seq),
{
    let data = session.packets[seq as int];
    lemma_settle_keeps_arrived(
        RecvView { space: session.rx.space.offer(seq, data), ..session.rx },
        seq,
    );
}

proof fn lemma_settle_keeps_arrived(rx: RecvView, seq: u64)
    requires
        seq < rx.space.next_seq || rx.space.held.contains_key(seq),
    ensures
        seq < rx.settle().space.next_seq || rx.settle().space.held.contains_key(seq),
    decreases u64::MAX - rx.space.next_seq,
{
    if rx.can_move() {
        lemma_settle_keeps_arrived(rx.move_one(), seq);
    }
}

/// A packet stays ready to be sent once more until an acknowledgement names it.
pub proof fn law_packet_is_kept_until_acked<S>(session: Session<S>, event: Event<S>, seq: u64)
    requires
        session.sound(),
        session.can_happen(event),
        session.tx.space.in_flight.contains_key(seq),
        event matches Event::Ack(ack) ==> !ack.contains(seq),
    ensures
        session.after(event).tx.space.in_flight.contains_key(seq),
        session.after(event).tx.space.in_flight[seq] == session.tx.space.in_flight[seq],
{
}

/// A copy of a packet that was taken before is accepted and changes nothing.
pub proof fn law_late_copy_changes_nothing<S>(session: Session<S>, seq: u64)
    requires
        session.sound(),
        seq < session.rx.space.next_seq,
    ensures
        session.rx.space.accepts(seq),
        session.after(Event::Arrive(seq)) == session,
{
    let data = session.packets[seq as int];
    assert(session.rx.space.offer(seq, data) == session.rx.space);
    assert(session.rx.arrive(seq, data) == session.rx);
}

/// A rejected packet changes nothing.
pub proof fn law_rejected_packet_changes_nothing(rx: RecvView, seq: u64, data: Seq<u8>)
    requires
        !rx.space.accepts(seq),
    ensures
        rx.arrive(seq, data) == rx,
{
}

/// The next packet in order is never rejected, as long as the window has any room at all and
/// there is a next number.
pub proof fn law_next_packet_is_accepted(rx: RecvView)
    requires
        rx.wf(),
        rx.space.window > 0,
        rx.space.next_seq < u64::MAX,
    ensures
        rx.space.accepts(rx.space.next_seq as u64),
{
}

/// Acknowledging the same packets again finds nothing and changes nothing.
pub proof fn law_second_ack_changes_nothing<S>(space: SendSpaceView<S>, ack: Seq<u64>)
    ensures
        space.ack(ack).ack(ack) == space.ack(ack),
        space.ack(ack).acked(ack) == Seq::<S>::empty(),
{
    assert(space.ack(ack).ack(ack) =~= space.ack(ack));
    assert forall|i: int| 0 <= i < ack.len() implies !space.ack(ack).in_flight.contains_key(
        #[trigger] ack[i],
    ) by {
        assert(ack.to_set().contains(ack[i]));
    }
    lemma_nothing_acked(space.ack(ack), ack);
}

/// An acknowledgement that names only packets that are not on their way changes nothing.
pub proof fn law_stray_ack_changes_nothing<S>(space: SendSpaceView<S>, ack: Seq<u64>)
    requires
        forall|i: int|
            0 <= i < ack.len() ==> !space.in_flight.contains_key(#[trigger] ack[i]),
    ensures
        space.ack(ack) == space,
        space.acked(ack) == Seq::<S>::empty(),
{
    assert(space.ack(ack) =~= space);
    lemma_nothing_acked(space, ack);
}

proof fn lemma_nothing_acked<S>(space: SendSpaceView<S>, ack: Seq<u64>)
    requires
        forall|i: int|
            0 <= i < ack.len() ==> !space.in_flight.contains_key(#[trigger] ack[i]),
    ensures
        space.acked(ack) == Seq::<S>::empty(),
    decreases ack.len(),
{
    if ack.len() > 0 {
        let earlier = ack.drop_last();
        assert forall|i: int| 0 <= i < earlier.len() implies !space.in_flight.contains_key(
            #[trigger] earlier[i],
        ) by {
            assert(earlier[i] == ack[i]);
        }
        lemma_nothing_acked(space, earlier);
        assert(!space.in_flight.contains_key(ack[ack.len() - 1]));
    }
}

proof fn lemma_numbers_in_range(numbers: Set<u64>, start: nat, count: nat)
    requires
        forall|seq: u64| #[trigger] numbers.contains(seq) ==> start <= seq < start + count,
    ensures
        numbers.finite(),
        numbers.len() <= count,
    decreases count,
{
    if count == 0 {
        assert(numbers =~= Set::empty());
    } else if start + count - 1 > u64::MAX {
        lemma_numbers_in_range(numbers, start, (count - 1) as nat);
    } else {
        let last = (start + count - 1) as u64;
        lemma_numbers_in_range(numbers.remove(last), start, (count - 1) as nat);
        assert(numbers =~= numbers.remove(last) || numbers =~= numbers.remove(last).insert(last));
    }
}

/// No more packets are held than the window is wide.
pub proof fn law_held_packets_fit_window(space: RecvSpaceView)
    requires
        space.wf(),
    ensures
        space.held.dom().finite(),
        space.held.dom().len() <= space.window,
{
    lemma_numbers_in_range(space.held.dom(), space.next_seq, space.window);
}

/// Every packet that leaves the space on an acknowledgement is reported, and reported once.
pub proof fn law_ack_reports_each_packet_once<S>(space: SendSpaceView<S>, ack: Seq<u64>)
    requires
        space.wf(),
    ensures
        space.ack(ack).in_flight.dom().len() + space.acked(ack).len()
            == space.in_flight.dom().len(),
    decreases ack.len(),
{
    lemma_numbers_in_range(space.in_flight.dom(), 0, space.next_seq);
    if ack.len() == 0 {
        assert(space.ack(ack).in_flight.dom() =~= space.in_flight.dom());
    } else {
        let earlier = ack.drop_last();
        let seq = ack.last();
        law_ack_reports_each_packet_once(space, earlier);
        assert(ack =~= earlier.push(seq));
        earlier.lemma_push_to_set_commute(seq);
        let before = space.ack(earlier).in_flight.dom();
        assert(space.ack(ack).in_flight.dom() =~= before.remove(seq));
        assert(before.subset_of(space.in_flight.dom()));
        assert(before =~= space.in_flight.dom().difference(earlier.to_set()));
        assert(before.finite());
        assert(before.contains(seq) <==> space.in_flight.contains_key(seq) && !earlier.contains(
            seq,
        ));
    }
}

} // verus!
