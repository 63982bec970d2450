//! What holds of the receiving end alone, whatever the packets carry.

use crate::packet_recv_space::RecvSpaceView;
use crate::reliable_layer::RecvView;
use crate::reliable_layer::RECV_DATA_BUFFER_LENGTH;
use vstd::prelude::*;

verus! {

/// What the packet with each number carries: any number of any bytes.
pub type Payloads = spec_fn(u64) -> Seq<u8>;

/// Something that happens at the receiving end.
pub enum RecvEvent {
    /// A copy of the packet with this number arrives.
    Arrive(u64),
    /// The application reads, into a buffer of this many bytes.
    Read(nat),
}

/// The payloads of the packets below `end`, one after the other.
pub open spec fn payloads_below(payloads: Payloads, end: nat) -> Seq<u8>
    decreases end,
{
    if end == 0 {
        Seq::empty()
    } else {
        payloads_below(payloads, (end - 1) as nat) + payloads((end - 1) as u64)
    }
}

/// How many bytes the packets with the given numbers carry together, of those below `end`.
pub open spec fn total_len(payloads: Payloads, numbers: Set<u64>, end: nat) -> nat
    decreases end,
{
    if end == 0 {
        0
    } else {
        let last = (end - 1) as u64;
        total_len(payloads, numbers, (end - 1) as nat) + if numbers.contains(last) {
            payloads(last).len()
        } else {
            0
        }
    }
}

/// A receiving end and what has come of it.
#[verifier::ext_equal]
pub struct Reception {
    /// The receiver.
    pub rx: RecvView,
    /// All bytes that the application has read.
    pub read: Seq<u8>,
    /// The numbers of all packets that were accepted.
    pub accepted: Set<u64>,
}

impl Reception {
    /// A receiving end at which nothing has happened.
    pub open spec fn start(window: nat) -> Self {
        Reception { rx: RecvView::empty(window), read: Seq::empty(), accepted: Set::empty() }
    }

    /// The receiving end after the event.
    pub open spec fn after(self, payloads: Payloads, event: RecvEvent) -> Self {
        match event {
            RecvEvent::Arrive(seq) => Reception {
                rx: self.rx.arrive(seq, payloads(seq)),
                accepted: if self.rx.space.accepts(seq) {
                    self.accepted.insert(seq)
                } else {
                    self.accepted
                },
                ..self
            },
            RecvEvent::Read(room) => Reception {
                rx: self.rx.read(room),
                read: self.read + self.rx.unread.take(self.rx.readable(room) as int),
                ..self
            },
        }
    }

    /// The receiving end after all events, in order.
    pub open spec fn after_all(self, payloads: Payloads, events: Seq<RecvEvent>) -> Self
        decreases events.len(),
    {
        if events.len() == 0 {
            self
        } else {
            self.after_all(payloads, events.drop_last()).after(payloads, events.last())
        }
    }

    /// The packets below the next one, in order, are what was read and what waits to be read, in
    /// a buffer of full length. Packets are held whole. Exactly what was accepted is below the
    /// next one or held.
    pub open spec fn in_order(self, payloads: Payloads) -> bool {
        &&& self.rx.wf()
        &&& self.rx.limit == RECV_DATA_BUFFER_LENGTH
        &&& self.read + self.rx.unread == payloads_below(payloads, self.rx.space.next_seq)
        &&& forall|seq: u64| #[trigger]
            self.rx.space.held.contains_key(seq) ==> self.rx.space.held[seq] == payloads(seq)
        &&& forall|seq: u64| #[trigger]
            self.accepted.contains(seq) <==> seq < self.rx.space.next_seq
                || self.rx.space.held.contains_key(seq)
    }
}

/// A new receiver has nothing to read, holds nothing, waits for the packet numbered zero, and has
/// the whole of its buffer and the whole of its window.
pub proof fn law_new_receiver_is_empty(window: nat)
    ensures
        RecvView::empty(window).unread.len() == 0,
        RecvView::empty(window).limit == RECV_DATA_BUFFER_LENGTH,
        RecvView::empty(window).space.next_seq == 0,
        RecvView::empty(window).space.window == window,
        forall|seq: u64| !#[trigger] RecvView::empty(window).space.held.contains_key(seq),
{
}

/// A packet is rejected exactly if the window does not reach it or no number could follow it,
/// wherever the packets before it are.
pub proof fn law_only_the_window_rejects(space: RecvSpaceView, seq: u64)
    requires
        space.next_seq <= u64::MAX,
    ensures
        space.accepts(seq) <==> seq < space.next_seq + space.window && seq < u64::MAX,
        space.in_window(seq) <==> space.accepts(seq) && seq >= space.next_seq,
{
}

/// A packet that the window reaches is held, with its bytes, in place of an earlier copy. Any
/// other packet changes nothing. No other held packet is touched.
pub proof fn law_offered_packet_is_held(space: RecvSpaceView, seq: u64, data: Seq<u8>, other: u64)
    ensures
        space.next_seq <= seq < space.next_seq + space.window && seq < u64::MAX ==> {
            &&& space.offer(seq, data).held.contains_key(seq)
            &&& space.offer(seq, data).held[seq] == data
        },
        seq < space.next_seq || space.next_seq + space.window <= seq || seq == u64::MAX
            ==> space.offer(seq, data) == space,
        other != seq ==> {
            &&& space.offer(seq, data).held.contains_key(other) == space.held.contains_key(other)
            &&& space.offer(seq, data).held[other] == space.held[other]
        },
        space.offer(seq, data).next_seq == space.next_seq,
        space.offer(seq, data).window == space.window,
{
}

/// The next packet in order can be taken exactly if it is held. Taking it gives its bytes, makes
/// room for one more number, and touches no other held packet.
pub proof fn law_next_packet_is_taken(space: RecvSpaceView, other: u64)
    requires
        space.next_seq < u64::MAX,
    ensures
        space.is_ready() <==> space.held.contains_key(space.next_seq as u64),
        space.ready() == space.held[space.next_seq as u64],
        space.advance().next_seq == space.next_seq + 1,
        space.advance().window == space.window,
        !space.advance().held.contains_key(space.next_seq as u64),
        other != space.next_seq ==> {
            &&& space.advance().held.contains_key(other) == space.held.contains_key(other)
            &&& space.advance().held[other] == space.held[other]
        },
{
}

/// Moving packets takes those from the next one on that are held without a gap, puts their bytes
/// one after the other behind those that wait to be read, and leaves the others alone. The buffer
/// is not overfilled, and what could be moved next is missing or longer than the room left.
pub proof fn law_moved_packets_join_the_stream(rx: RecvView)
    requires
        rx.space.next_seq <= u64::MAX,
        rx.unread.len() <= rx.limit,
    ensures
        rx.space.next_seq <= rx.settle().space.next_seq <= u64::MAX,
        forall|seq: u64|
            rx.space.next_seq <= seq < rx.settle().space.next_seq
                ==> #[trigger] rx.space.held.contains_key(seq),
        rx.settle().unread == rx.unread + Seq::new(
            (rx.settle().space.next_seq - rx.space.next_seq) as nat,
            |i: int| rx.space.held[(rx.space.next_seq + i) as u64],
        ).flatten(),
        forall|seq: u64| #[trigger]
            rx.settle().space.held.contains_key(seq) <==> rx.space.held.contains_key(seq) && !(
            rx.space.next_seq <= seq < rx.settle().space.next_seq),
        forall|seq: u64| #[trigger]
            rx.settle().space.held.contains_key(seq) ==> rx.settle().space.held[seq]
                == rx.space.held[seq],
        rx.settle().unread.len() <= rx.limit,
        rx.settle().space.next_seq < u64::MAX && rx.settle().space.held.contains_key(
            rx.settle().space.next_seq as u64,
        ) ==> rx.settle().space.held[rx.settle().space.next_seq as u64].len() > rx.limit
            - rx.settle().unread.len(),
        rx.settle().limit == rx.limit,
        rx.settle().space.window == rx.space.window,
    decreases u64::MAX - rx.space.next_seq,
{
    let n = rx.space.next_seq;
    let end = rx.settle();
    if rx.can_move() {
        let moved = rx.move_one();
        law_moved_packets_join_the_stream(moved);
        let taken = Seq::new(
            (end.space.next_seq - n) as nat,
            |i: int| rx.space.held[(n + i) as u64],
        );
        let later = Seq::new(
            (end.space.next_seq - moved.space.next_seq) as nat,
            |i: int| moved.space.held[(moved.space.next_seq + i) as u64],
        );
        assert(taken.first() == rx.space.ready());
        assert(taken.drop_first() =~= later);
        assert(end.unread =~= rx.unread + taken.flatten());
        assert forall|seq: u64| n <= seq < end.space.next_seq implies #[trigger]
            rx.space.held.contains_key(seq) by {
            if seq != n {
                assert(moved.space.held.contains_key(seq));
            }
        }
    } else {
        let none = Seq::new(0, |i: int| rx.space.held[(n + i) as u64]);
        assert(none =~= Seq::<Seq<u8>>::empty());
        assert(end.unread =~= rx.unread + none.flatten());
    }
}

/// A packet that the window reaches is accepted when it arrives, whether or not those before it
/// have: after that it is held with its bytes, or taken into the stream. So is every packet that
/// was held before. A packet that the window does not reach changes nothing.
pub proof fn law_packet_in_window_is_received(rx: RecvView, seq: u64, data: Seq<u8>, other: u64)
    requires
        rx.space.next_seq <= u64::MAX,
        rx.unread.len() <= rx.limit,
    ensures
        rx.space.next_seq <= seq < rx.space.next_seq + rx.space.window && seq < u64::MAX ==> {
            &&& rx.space.accepts(seq)
            &&& seq < rx.arrive(seq, data).space.next_seq || {
                &&& rx.arrive(seq, data).space.held.contains_key(seq)
                &&& rx.arrive(seq, data).space.held[seq] == data
            }
            &&& rx.arrive(seq, data) == (RecvView {
                space: RecvSpaceView { held: rx.space.held.insert(seq, data), ..rx.space },
                ..rx
            }).settle()
        },
        seq >= rx.space.next_seq + rx.space.window || seq == u64::MAX ==> {
            &&& seq >= rx.space.next_seq ==> !rx.space.accepts(seq)
            &&& seq >= rx.space.next_seq ==> rx.arrive(seq, data) == rx
        },
        other != seq && rx.space.held.contains_key(other) ==> {
            ||| other < rx.arrive(seq, data).space.next_seq
            ||| rx.arrive(seq, data).space.held.contains_key(other) && rx.arrive(
                seq,
                data,
            ).space.held[other] == rx.space.held[other]
        },
        rx.unread.is_prefix_of(rx.arrive(seq, data).unread),
        rx.arrive(seq, data).limit == rx.limit,
        rx.arrive(seq, data).space.window == rx.space.window,
{
    let offered = RecvView { space: rx.space.offer(seq, data), ..rx };
    law_moved_packets_join_the_stream(offered);
    if other != seq && rx.space.held.contains_key(other) {
        assert(offered.space.held.contains_key(other));
        if rx.space.accepts(seq) && !offered.settle().space.held.contains_key(other) {
            assert(other < offered.settle().space.next_seq);
        }
    }
    if rx.space.accepts(seq) && seq >= rx.space.next_seq {
        assert(offered.space.held.contains_key(seq));
        assert(offered.space.held =~= rx.space.held.insert(seq, data));
    }
}

/// A copy of a packet that was taken before is accepted, and nothing is held or taken for it.
pub proof fn law_copy_of_taken_packet_is_dropped(rx: RecvView, seq: u64, data: Seq<u8>)
    requires
        seq < rx.space.next_seq,
    ensures
        rx.space.accepts(seq),
        rx.arrive(seq, data) == rx.settle(),
{
}

/// A read gives the first bytes that wait, as many as the caller's buffer takes, and leaves the
/// others for later. Packets that were held back for want of room are moved then.
pub proof fn law_read_gives_all_that_fits(rx: RecvView, room: nat)
    ensures
        rx.unread.len() <= room ==> rx.readable(room) == rx.unread.len(),
        rx.unread.len() > room ==> rx.readable(room) == room,
        rx.unread.len() <= room ==> rx.read(room) == (RecvView {
            unread: Seq::empty(),
            ..rx
        }).settle(),
        rx.unread.len() > room ==> rx.read(room) == (RecvView {
            unread: rx.unread.subrange(room as int, rx.unread.len() as int),
            ..rx
        }).settle(),
{
    if rx.unread.len() <= room {
        assert(rx.unread.skip(rx.unread.len() as int) =~= Seq::<u8>::empty());
    }
}

/// Two reads, one after the other, give the bytes that wait in order: the second goes on where the
/// first has stopped.
pub proof fn law_second_read_goes_on(rx: RecvView, room1: nat, room2: nat)
    requires
        rx.space.next_seq <= u64::MAX,
        rx.unread.len() <= rx.limit,
        room1 + room2 <= rx.unread.len(),
    ensures
        rx.unread.take(rx.readable(room1) as int) + rx.read(room1).unread.take(
            rx.read(room1).readable(room2) as int,
        ) == rx.unread.take((room1 + room2) as int),
{
    let rest = RecvView { unread: rx.unread.skip(room1 as int), ..rx };
    law_moved_packets_join_the_stream(rest);
    assert(rx.unread.take(room1 as int) + rest.settle().unread.take(room2 as int)
        =~= rx.unread.take((room1 + room2) as int));
}

/// Moving packets keeps the order.
proof fn lemma_settle_in_order(reception: Reception, payloads: Payloads)
    requires
        reception.in_order(payloads),
    ensures
        (Reception { rx: reception.rx.settle(), ..reception }).in_order(payloads),
    decreases u64::MAX - reception.rx.space.next_seq,
{
    if reception.rx.can_move() {
        let moved = Reception { rx: reception.rx.move_one(), ..reception };
        assert(moved.read + moved.rx.unread =~= reception.read + reception.rx.unread
            + reception.rx.space.ready());
        lemma_settle_in_order(moved, payloads);
    }
}

proof fn lemma_after_in_order(reception: Reception, payloads: Payloads, event: RecvEvent)
    requires
        reception.in_order(payloads),
        !reception.rx.can_move(),
    ensures
        reception.after(payloads, event).in_order(payloads),
        !reception.after(payloads, event).rx.can_move(),
{
    match event {
        RecvEvent::Arrive(seq) => {
            if reception.rx.space.accepts(seq) {
                let space = reception.rx.space.offer(seq, payloads(seq));
                let offered = Reception {
                    rx: RecvView { space, ..reception.rx },
                    accepted: reception.accepted.insert(seq),
                    ..reception
                };
                lemma_settle_in_order(offered, payloads);
                crate::laws::law_all_that_fits_is_moved(offered.rx);
            }
        },
        RecvEvent::Read(room) => {
            let n = reception.rx.readable(room) as int;
            let taken = Reception {
                rx: RecvView { unread: reception.rx.unread.skip(n), ..reception.rx },
                read: reception.read + reception.rx.unread.take(n),
                ..reception
            };
            assert(taken.read + taken.rx.unread =~= reception.read + reception.rx.unread);
            lemma_settle_in_order(taken, payloads);
            crate::laws::law_all_that_fits_is_moved(taken.rx);
        },
    }
}

/// Whatever the packets carry, and in whatever order and how often they arrive: what was read,
/// followed by what waits to be read, is what the packets below the next one carry, in order. The
/// next one is missing or has no room.
pub proof fn law_stream_is_in_order(window: nat, payloads: Payloads, events: Seq<RecvEvent>)
    ensures
        ({
            let end = Reception::start(window).after_all(payloads, events);
            &&& end.in_order(payloads)
            &&& end.read + end.rx.unread == payloads_below(payloads, end.rx.space.next_seq)
            &&& !end.rx.can_move()
        }),
    decreases events.len(),
{
    let start = Reception::start(window);
    if events.len() == 0 {
        assert(start.read + start.rx.unread =~= payloads_below(payloads, 0));
    } else {
        law_stream_is_in_order(window, payloads, events.drop_last());
        lemma_after_in_order(
            start.after_all(payloads, events.drop_last()),
            payloads,
            events.last(),
        );
    }
}

/// Packets without a gap below `end` carry no more than all packets below a later end.
proof fn lemma_below_fits(payloads: Payloads, numbers: Set<u64>, end: nat, later: nat)
    requires
        end <= later,
        forall|seq: u64| seq < end ==> #[trigger] numbers.contains(seq),
        end <= u64::MAX,
    ensures
        payloads_below(payloads, end).len() <= total_len(payloads, numbers, later),
    decreases later,
{
    if end < later {
        lemma_below_fits(payloads, numbers, end, (later - 1) as nat);
    } else if end > 0 {
        lemma_below_fits(payloads, numbers, (end - 1) as nat, (later - 1) as nat);
        assert(numbers.contains((end - 1) as u64));
    }
}

/// The next packet is missing if all accepted packets together fit in the buffer.
proof fn lemma_next_is_missing(reception: Reception, payloads: Payloads)
    requires
        reception.in_order(payloads),
        !reception.rx.can_move(),
        total_len(payloads, reception.accepted, u64::MAX as nat) <= RECV_DATA_BUFFER_LENGTH,
    ensures
        reception.rx.space.next_seq < u64::MAX ==> !reception.accepted.contains(
            reception.rx.space.next_seq as u64,
        ),
{
    let n = reception.rx.space.next_seq;
    if n < u64::MAX && reception.accepted.contains(n as u64) {
        assert(reception.rx.space.held.contains_key(n as u64));
        lemma_below_fits(payloads, reception.accepted, n + 1, u64::MAX as nat);
        assert(payloads_below(payloads, n + 1) == payloads_below(payloads, n) + payloads(n as u64));
        assert((reception.read + reception.rx.unread).len() == payloads_below(payloads, n).len());
        assert(reception.rx.can_move());
    }
}

/// What a run of arrivals and reads has brought depends only on which packets were accepted, not
/// on their order, as long as all of them together fit in the buffer. The windows, and when and
/// how much is read, may differ.
pub proof fn law_order_of_arrival_does_not_matter(
    payloads: Payloads,
    window1: nat,
    events1: Seq<RecvEvent>,
    window2: nat,
    events2: Seq<RecvEvent>,
)
    requires
        Reception::start(window1).after_all(payloads, events1).accepted == Reception::start(
            window2,
        ).after_all(payloads, events2).accepted,
        total_len(
            payloads,
            Reception::start(window1).after_all(payloads, events1).accepted,
            u64::MAX as nat,
        ) <= RECV_DATA_BUFFER_LENGTH,
    ensures
        ({
            let end1 = Reception::start(window1).after_all(payloads, events1);
            let end2 = Reception::start(window2).after_all(payloads, events2);
            &&& end1.read + end1.rx.unread == end2.read + end2.rx.unread
            &&& end1.rx.space.next_seq == end2.rx.space.next_seq
            &&& end1.rx.space.held == end2.rx.space.held
        }),
{
    let end1 = Reception::start(window1).after_all(payloads, events1);
    let end2 = Reception::start(window2).after_all(payloads, events2);
    law_stream_is_in_order(window1, payloads, events1);
    law_stream_is_in_order(window2, payloads, events2);
    lemma_next_is_missing(end1, payloads);
    lemma_next_is_missing(end2, payloads);
    let n1 = end1.rx.space.next_seq;
    let n2 = end2.rx.space.next_seq;
    if n1 < n2 {
        assert(end2.accepted.contains(n1 as u64));
    } else if n2 < n1 {
        assert(end1.accepted.contains(n2 as u64));
    }
    assert(end1.rx.space.held =~= end2.rx.space.held) by {
        assert forall|seq: u64|
            end1.rx.space.held.contains_key(seq) == end2.rx.space.held.contains_key(seq) by {
            assert(end1.accepted.contains(seq) == end2.accepted.contains(seq));
        }
    }
}

proof fn lemma_nothing_read(window: nat, payloads: Payloads, events: Seq<RecvEvent>)
    requires
        forall|i: int| 0 <= i < events.len() ==> #[trigger] events[i] is Arrive,
    ensures
        Reception::start(window).after_all(payloads, events).read == Seq::<u8>::empty(),
    decreases events.len(),
{
    if events.len() > 0 {
        assert(events[events.len() - 1] is Arrive);
        assert forall|i: int| 0 <= i < events.drop_last().len() implies #[trigger]
            events.drop_last()[i] is Arrive by {
            assert(events[i] is Arrive);
        }
        lemma_nothing_read(window, payloads, events.drop_last());
    }
}

/// Two runs of arrivals that accept the same packets, which together fit in the buffer, end with
/// the same bytes to read.
pub proof fn law_same_packets_give_same_bytes(
    payloads: Payloads,
    window1: nat,
    events1: Seq<RecvEvent>,
    window2: nat,
    events2: Seq<RecvEvent>,
)
    requires
        forall|i: int| 0 <= i < events1.len() ==> #[trigger] events1[i] is Arrive,
        forall|i: int| 0 <= i < events2.len() ==> #[trigger] events2[i] is Arrive,
        Reception::start(window1).after_all(payloads, events1).accepted == Reception::start(
            window2,
        ).after_all(payloads, events2).accepted,
        total_len(
            payloads,
            Reception::start(window1).after_all(payloads, events1).accepted,
            u64::MAX as nat,
        ) <= RECV_DATA_BUFFER_LENGTH,
    ensures
        Reception::start(window1).after_all(payloads, events1).rx.unread == Reception::start(
            window2,
        ).after_all(payloads, events2).rx.unread,
{
    let end1 = Reception::start(window1).after_all(payloads, events1);
    let end2 = Reception::start(window2).after_all(payloads, events2);
    law_order_of_arrival_does_not_matter(payloads, window1, events1, window2, events2);
    lemma_nothing_read(window1, payloads, events1);
    lemma_nothing_read(window2, payloads, events2);
    assert(end1.read + end1.rx.unread =~= end1.rx.unread);
    assert(end2.read + end2.rx.unread =~= end2.rx.unread);
}

} // verus!
