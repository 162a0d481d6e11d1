//! What a sender's success says of the receiver, over a network that loses,
//! repeats and reorders datagrams.
use vstd::prelude::*;

use crate::addr::SocketAddr;
use crate::exchange::{
    datagrams_in, expected_block_is_answered, filled_keeps_eof, near_numbers_differ,
    number_of_next, number_within_window, one_arrival_keeps_faithful, reception_starts_faithful,
    Reception,
};
use crate::incoming::{content, timeouts_write_nothing, IncomingView};
use crate::netascii::netascii_round_trips;
use crate::outgoing::{
    blocks_leave_only_by_acknowledgement, proceeding_keeps_what_is_outstanding,
    timed_out_report, OutgoingView,
};
use crate::proto::packet::{packet_of, packet_wire, packets_round_trip, PacketView};
use crate::proto::Mode;
use crate::sender::{
    acked_within, acks_are_cumulative, acks_take_from_what_is_outstanding,
    blocks_carry_the_stream, blocks_of, distance, encoded, filling_keeps_what_is_outstanding,
    number_after, reading_keeps_what_is_outstanding, start_has_all_to_come,
};
use crate::session::{send_view, stranger_reply, written, Negotiated, OutputView, StepView};

verus! {

/// Something that happens at one of the two ends.
pub enum Event {
    /// The sender reads this many bytes of the source.
    Read(nat),
    /// The sender waits in vain.
    SenderTimeout,
    /// The sender gets the acknowledgement that the receiver sent when it had
    /// taken this many blocks.
    Ack(nat),
    /// The sender gets any datagram that is no acknowledgement from its peer.
    SenderDatagram { src: SocketAddr, bytes: Seq<u8> },
    /// The receiver gets the block at this index.
    Block(int),
    /// The receiver waits in vain.
    ReceiverTimeout,
    /// The receiver gets any datagram that is no block from its peer.
    ReceiverDatagram { src: SocketAddr, bytes: Seq<u8> },
}

/// The datagram that says that the first `n` blocks have been taken.
pub open spec fn ack_of(n: int) -> Seq<u8> {
    packet_wire(PacketView::Ack { block: number_after(0, n) })
}

/// Both ends of a transfer over any network.
#[verifier::ext_equal]
pub struct Delivery {
    pub out: OutgoingView,
    /// What the source still holds.
    pub rest: Seq<u8>,
    /// How many blocks the sender holds for acknowledged.
    pub acked: nat,
    /// Whether the transfer is done for the sender.
    pub done: bool,
    pub reception: Reception,
    /// The numbers of blocks that the receiver has said it had taken.
    pub said: Set<nat>,
}

impl Delivery {
    /// Before the first block of `file`.  That no block was taken yet has been
    /// said in answer to the request.
    pub open spec fn start(out: OutgoingView, inc: IncomingView, file: Seq<u8>) -> Delivery {
        Delivery {
            out: out.proceed().0,
            rest: file,
            acked: 0,
            done: out.proceed().1.next is Done,
            reception: Reception::start(inc),
            said: set![0nat],
        }
    }

    /// What the event makes the sender do, if the sender is concerned and
    /// ready for it.
    pub open spec fn sender_step(self, event: Event) -> Option<(OutgoingView, StepView)> {
        if self.done {
            None
        } else if self.out.reading() {
            match event {
                Event::Read(n) => Some(self.out.on_chunk(self.rest.take(n as int))),
                _ => None,
            }
        } else if self.out.waiting() {
            match event {
                Event::SenderTimeout => Some(self.out.on_timeout()),
                Event::Ack(n) => Some(self.out.on_datagram(self.out.peer, ack_of(n as int))),
                Event::SenderDatagram { src, bytes } => Some(self.out.on_datagram(src, bytes)),
                _ => None,
            }
        } else {
            None
        }
    }

    /// What the event makes the receiver do, if the receiver is concerned and
    /// has not finished.
    pub open spec fn receiver_step(self, blocks: Seq<Seq<u8>>, event: Event) -> Option<
        (IncomingView, StepView),
    > {
        let inc = self.reception.inc;
        if inc.finished {
            None
        } else {
            match event {
                Event::Block(i) => Some(
                    inc.on_datagram(
                        inc.peer,
                        packet_wire(
                            PacketView::Data { block: number_after(1, i), data: blocks[i] },
                        ),
                    ),
                ),
                Event::ReceiverTimeout => Some(inc.on_timeout()),
                Event::ReceiverDatagram { src, bytes } => Some(inc.on_datagram(src, bytes)),
                _ => None,
            }
        }
    }

    /// After what the event makes the sender do.
    pub open spec fn sender_after(self, event: Event) -> Delivery {
        match self.sender_step(event) {
            None => self,
            Some((out, step)) => Delivery {
                out,
                rest: match event {
                    Event::Read(n) => self.rest.skip(n as int),
                    _ => self.rest,
                },
                acked: match event {
                    Event::Ack(n) => self.acked + self.out.window.acked_by(
                        number_after(0, n as int),
                        self.out.serving,
                    ),
                    _ => self.acked,
                },
                done: step.next is Done,
                ..self
            },
        }
    }

    /// After what the event makes the receiver do.
    pub open spec fn receiver_after(self, blocks: Seq<Seq<u8>>, event: Event) -> Delivery {
        match self.receiver_step(blocks, event) {
            None => self,
            Some((inc, step)) => {
                let taken = match event {
                    Event::Block(i) if i == self.reception.taken => self.reception.taken + 1,
                    _ => self.reception.taken,
                };
                Delivery {
                    reception: Reception {
                        inc,
                        taken,
                        written: self.reception.written + written(step.outputs),
                    },
                    said: if datagrams_in(step.outputs).contains(ack_of(taken as int)) {
                        self.said.insert(taken)
                    } else {
                        self.said
                    },
                    ..self
                }
            },
        }
    }

    /// After an event.
    pub open spec fn after(self, blocks: Seq<Seq<u8>>, event: Event) -> Delivery {
        self.sender_after(event).receiver_after(blocks, event)
    }

    /// After events, one after the other.
    pub open spec fn after_all(self, blocks: Seq<Seq<u8>>, events: Seq<Event>) -> Delivery
        decreases events.len(),
    {
        if events.len() == 0 {
            self
        } else {
            self.after(blocks, events[0]).after_all(blocks, events.drop_first())
        }
    }

    /// Whether an event can happen: a read gives nothing only at the end of
    /// the source, an acknowledgement is one that the receiver has sent, and
    /// no datagram comes so late, or so early, that its number could be
    /// mistaken for another.
    pub open spec fn possible(self, blocks: Seq<Seq<u8>>, event: Event) -> bool {
        match event {
            Event::Read(n) => n <= self.rest.len() && (n == 0 ==> self.rest.len() == 0),
            Event::Ack(n) => {
                &&& self.said.contains(n)
                &&& self.acked + self.out.window.windowsize - 0x10000 < n <= self.acked + 0x10000
            },
            Event::SenderDatagram { src, bytes } => src != self.out.peer || !(packet_of(
                bytes,
            ) matches Ok(PacketView::Ack { .. })),
            Event::Block(i) => {
                &&& 0 <= i < blocks.len()
                &&& self.reception.taken - 0x10000 < i < self.reception.taken + 0x10000
            },
            Event::ReceiverDatagram { src, bytes } => src != self.reception.inc.peer || !(
            packet_of(bytes) matches Ok(PacketView::Data { .. })),
            _ => true,
        }
    }

    /// Whether each of the events can happen in its turn.
    pub open spec fn all_possible(self, blocks: Seq<Seq<u8>>, events: Seq<Event>) -> bool
        decreases events.len(),
    {
        events.len() > 0 ==> {
            &&& self.possible(blocks, events[0])
            &&& self.after(blocks, events[0]).all_possible(blocks, events.drop_first())
        }
    }

    /// The blocks that carry `file`.
    pub open spec fn blocks(self, file: Seq<u8>) -> Seq<Seq<u8>> {
        let sender = self.out.window.sender;
        blocks_of(encoded(sender.mode, file), sender.blksize)
    }

    /// Whether the sender holds for acknowledged only what the receiver has
    /// taken, and both go by the blocks of `file`.
    pub open spec fn sound(self, file: Seq<u8>) -> bool {
        let window = self.out.window;
        let blocks = self.blocks(file);
        &&& self.out.wf()
        &&& window.sender.eof ==> self.rest.len() == 0
        &&& self.acked <= blocks.len()
        &&& window.outstanding(self.rest) == blocks.skip(self.acked as int)
        &&& window.first_number() == number_after(1, self.acked as int)
        &&& self.reception.faithful(encoded(window.sender.mode, file))
        &&& self.reception.inc.mode == window.sender.mode
        &&& self.reception.inc.blksize == window.sender.blksize
        &&& self.acked <= self.reception.taken
        &&& forall|n: nat| self.said.contains(n) ==> n <= self.reception.taken
        &&& self.done ==> self.acked == blocks.len()
    }
}

/// How far an acknowledgement of the first `n` blocks lies ahead of the first
/// block in flight, which `acked` blocks precede.
proof fn ack_lies_ahead(acked: int, n: int, windowsize: u16)
    requires
        acked + windowsize - 0x10000 < n <= acked + 0x10000,
    ensures
        distance(number_after(1, acked), number_after(0, n)) == (if n > acked {
            n - 1 - acked
        } else {
            n - 1 - acked + 0x10000
        }),
{
}

/// An acknowledgement in time covers no block that had not been taken when it
/// was sent.
proof fn acks_cover_what_was_taken(d: Delivery, file: Seq<u8>, n: nat)
    requires
        d.sound(file),
        d.out.waiting(),
        d.possible(d.blocks(file), Event::Ack(n)),
    ensures
        ({
            let covered = d.out.window.acked_by(number_after(0, n as int), d.out.serving);
            covered > 0 ==> d.acked + covered <= n
        }),
{
    let w = d.out.window;
    let ack = number_after(0, n as int);
    assert(w.in_flight[0].0 == w.first_number());
    ack_lies_ahead(d.acked as int, n as int, w.windowsize);
    acks_are_cumulative(w.in_flight, w.next_block, ack, w.windowsize, d.out.serving);
}

/// A sender that has moved on as far as acknowledgements cover keeps a
/// delivery sound.
proof fn moving_on_keeps_sound(
    d: Delivery,
    file: Seq<u8>,
    out: OutgoingView,
    rest: Seq<u8>,
    covered: nat,
    done: bool,
)
    requires
        d.sound(file),
        out.wf(),
        out.window.sender.eof ==> rest.len() == 0,
        out.window.sender.mode == d.out.window.sender.mode,
        out.window.sender.blksize == d.out.window.sender.blksize,
        covered <= d.out.window.outstanding(d.rest).len(),
        out.window.outstanding(rest) == d.out.window.outstanding(d.rest).skip(covered as int),
        out.window.first_number() == number_after(d.out.window.first_number(), covered as int),
        d.acked + covered <= d.reception.taken,
        done ==> out.window.outstanding(rest).len() == 0,
    ensures
        (Delivery { out, rest, acked: d.acked + covered, done, ..d }).sound(file),
{
    let blocks = d.blocks(file);
    assert(blocks.skip(d.acked as int).skip(covered as int) =~= blocks.skip(
        (d.acked + covered) as int,
    ));
    first_after(d.acked as int, covered as int);
}

proof fn first_after(acked: int, covered: int)
    ensures
        number_after(number_after(1, acked), covered) == number_after(1, acked + covered),
{
}

proof fn number_after_none(n: u16)
    ensures
        number_after(n, 0) == n,
{
}

/// What a read of the source does to the sender.
proof fn reading_moves_nothing(out: OutgoingView, chunk: Seq<u8>, left: Seq<u8>)
    requires
        out.wf(),
        out.reading(),
        chunk.len() == 0 ==> left.len() == 0,
    ensures
        ({
            let (next, step) = out.on_chunk(chunk);
            &&& next.wf()
            &&& next.window.sender.eof ==> left.len() == 0
            &&& next.window.sender.mode == out.window.sender.mode
            &&& next.window.sender.blksize == out.window.sender.blksize
            &&& next.window.outstanding(left) == out.window.outstanding(chunk + left)
            &&& next.window.first_number() == out.window.first_number()
            &&& step.next is Done ==> next.window.outstanding(left).len() == 0
        }),
{
    reading_keeps_what_is_outstanding(out.window, chunk, left);
    filling_keeps_what_is_outstanding(out.window.fed(chunk), left);
    proceeding_keeps_what_is_outstanding(out.fed(chunk), left);
}

/// What an acknowledgement does to the sender.
proof fn acks_move_what_they_cover(out: OutgoingView, block: u16, rest: Seq<u8>)
    requires
        out.wf(),
        out.waiting(),
        out.window.sender.eof ==> rest.len() == 0,
    ensures
        ({
            let (next, step) = out.on_datagram(
                out.peer,
                packet_wire(PacketView::Ack { block }),
            );
            let covered = out.window.acked_by(block, out.serving);
            &&& next.wf()
            &&& next.window.sender.eof ==> rest.len() == 0
            &&& next.window.sender.mode == out.window.sender.mode
            &&& next.window.sender.blksize == out.window.sender.blksize
            &&& covered <= out.window.in_flight.len()
            &&& next.window.outstanding(rest) == out.window.outstanding(rest).skip(
                covered as int,
            )
            &&& next.window.first_number() == number_after(
                out.window.first_number(),
                covered as int,
            )
            &&& step.next is Done ==> next.window.outstanding(rest).len() == 0
        }),
{
    let w = out.window;
    let wire = packet_wire(PacketView::Ack { block });
    packets_round_trip(PacketView::Ack { block });
    blocks_leave_only_by_acknowledgement(out, out.peer, wire, rest);
    acked_within(w.in_flight, block, w.windowsize, out.serving);
    let covered = w.acked_by(block, out.serving) as int;
    if covered > 0 {
        let after = w.acknowledged(block, out.serving);
        acks_take_from_what_is_outstanding(w, block, out.serving, rest);
        filling_keeps_what_is_outstanding(after, rest);
        number_within_window(w.next_block, w.in_flight.len() as int, covered);
    } else {
        number_after_none(w.first_number());
    }
}

/// What anything else does to the sender while it waits.
proof fn others_move_nothing(d: Delivery, file: Seq<u8>, event: Event)
    requires
        d.possible(d.blocks(file), event),
        !d.done,
        d.out.waiting(),
        event is SenderTimeout || event is SenderDatagram,
    ensures
        ({
            let (out, step) = d.sender_step(event)->0;
            &&& out.window == d.out.window
            &&& d.out.wf() ==> out.wf()
            &&& !(step.next is Done)
        }),
{
}

/// A step of the sender keeps a delivery sound.
proof fn sender_keeps_sound(d: Delivery, file: Seq<u8>, event: Event)
    requires
        d.sound(file),
        d.possible(d.blocks(file), event),
    ensures
        d.sender_after(event).sound(file),
        d.sender_after(event).blocks(file) == d.blocks(file),
        d.sender_after(event).reception == d.reception,
        d.sender_after(event).said == d.said,
{
    if d.sender_step(event) is Some {
        let (out, step) = d.sender_step(event)->0;
        let done = step.next is Done;
        let all = d.out.window.outstanding(d.rest);
        assert(all.skip(0) =~= all);
        number_after_none(d.out.window.first_number());
        match event {
            Event::Read(n) => {
                let chunk = d.rest.take(n as int);
                let left = d.rest.skip(n as int);
                assert(chunk + left =~= d.rest);
                reading_moves_nothing(d.out, chunk, left);
                moving_on_keeps_sound(d, file, out, left, 0, done);
            },
            Event::Ack(n) => {
                let block = number_after(0, n as int);
                acks_cover_what_was_taken(d, file, n);
                acks_move_what_they_cover(d.out, block, d.rest);
                let covered = d.out.window.acked_by(block, d.out.serving);
                moving_on_keeps_sound(d, file, out, d.rest, covered, done);
            },
            _ => {
                others_move_nothing(d, file, event);
                moving_on_keeps_sound(d, file, out, d.rest, 0, done);
            },
        }
    }
}

/// A step of the receiver keeps a delivery sound.
proof fn receiver_keeps_sound(d: Delivery, file: Seq<u8>, event: Event)
    requires
        d.sound(file),
        d.possible(d.blocks(file), event),
    ensures
        d.receiver_after(d.blocks(file), event).sound(file),
        d.receiver_after(d.blocks(file), event).blocks(file) == d.blocks(file),
{
    let blocks = d.blocks(file);
    let r = d.reception;
    let next = d.receiver_after(blocks, event);
    if d.receiver_step(blocks, event) is Some {
        match event {
            Event::Block(i) => {
                packets_round_trip(
                    PacketView::Data { block: number_after(1, i), data: blocks[i] },
                );
                let fresh = Reception { inc: IncomingView { attempt: 0, ..r.inc }, ..r };
                one_arrival_keeps_faithful(
                    fresh,
                    encoded(d.out.window.sender.mode, file),
                    i,
                );
                assert(next.reception =~= fresh.after(blocks, i));
            },
            Event::ReceiverTimeout => {
                timeouts_write_nothing(r.inc);
                assert(next.reception.written =~= r.written);
            },
            Event::ReceiverDatagram { src, bytes } => {
                passing_datagrams_write_nothing(r.inc, src, bytes);
                assert(next.reception.written =~= r.written);
            },
            _ => {},
        }
    }
}

/// A datagram that is no block from the peer writes nothing and changes
/// nothing.
proof fn passing_datagrams_write_nothing(inc: IncomingView, src: SocketAddr, bytes: Seq<u8>)
    requires
        src != inc.peer || !(packet_of(bytes) matches Ok(PacketView::Data { .. })),
    ensures
        inc.on_datagram(src, bytes).0 == inc,
        written(inc.on_datagram(src, bytes).1.outputs) == Seq::<u8>::empty(),
{
    reveal_with_fuel(written, 2);
    let outputs = inc.on_datagram(src, bytes).1.outputs;
    if outputs.len() > 0 {
        assert(outputs.drop_last() =~= Seq::<OutputView>::empty());
    }
    assert(written(outputs) =~= Seq::<u8>::empty());
}

/// Whatever happens, the sender holds for acknowledged only what the receiver
/// has taken.
pub proof fn deliveries_stay_sound(d: Delivery, file: Seq<u8>, events: Seq<Event>)
    requires
        d.sound(file),
        d.all_possible(d.blocks(file), events),
    ensures
        d.after_all(d.blocks(file), events).sound(file),
        d.after_all(d.blocks(file), events).blocks(file) == d.blocks(file),
    decreases events.len(),
{
    if events.len() > 0 {
        let event = events[0];
        sender_keeps_sound(d, file, event);
        // No event concerns both ends.
        if d.sender_step(event) is None {
            receiver_keeps_sound(d, file, event);
        }
        deliveries_stay_sound(d.after(d.blocks(file), event), file, events.drop_first());
    }
}

/// Two ends that have yet to begin and go by the same mode and block size are
/// sound.
pub proof fn deliveries_start_sound(
    out_peer: SocketAddr,
    out_retries: u32,
    out_serving: bool,
    out_neg: Negotiated,
    inc_peer: SocketAddr,
    inc_retries: u32,
    inc_serving: bool,
    inc_neg: Negotiated,
    mode: Mode,
    file: Seq<u8>,
)
    requires
        out_neg.blksize == inc_neg.blksize > 0,
        out_neg.windowsize > 0,
        inc_neg.windowsize > 0,
    ensures
        ({
            let out = OutgoingView::start(out_peer, out_retries, out_serving, mode, out_neg);
            let inc = IncomingView::start(inc_peer, inc_retries, inc_serving, mode, inc_neg);
            Delivery::start(out, inc, file).sound(file)
        }),
{
    let out = OutgoingView::start(out_peer, out_retries, out_serving, mode, out_neg);
    let blksize = out_neg.blksize as nat;
    let stream = encoded(mode, file);
    start_has_all_to_come(mode, blksize, file);
    assert(out.window.outstanding(file) =~= blocks_of(stream, blksize));
    assert(blocks_of(stream, blksize).skip(0) =~= blocks_of(stream, blksize));
    filling_keeps_what_is_outstanding(out.window, file);
    filled_keeps_eof(out.window);
    blocks_carry_the_stream(stream, blksize);
    vstd::arithmetic::div_mod::lemma_div_pos_is_pos(stream.len() as int, blksize as int);
    reception_starts_faithful(inc_peer, inc_retries, inc_serving, mode, inc_neg, stream);
}

/// However datagrams are lost, repeated or put out of order: if the transfer
/// is done for the sender, then the receiver has finished and has written the
/// file, and nothing else.
pub proof fn success_means_arrival(d: Delivery, file: Seq<u8>, events: Seq<Event>)
    requires
        d.sound(file),
        d.all_possible(d.blocks(file), events),
    ensures
        ({
            let end = d.after_all(d.blocks(file), events);
            end.done ==> end.reception.inc.finished && end.reception.written == file
        }),
{
    deliveries_stay_sound(d, file, events);
    let mode = d.after_all(d.blocks(file), events).out.window.sender.mode;
    netascii_round_trips(file);
    assert(content(mode, false, encoded(mode, file)) =~= file);
}

/// Whether every acknowledgement among outputs is of the first `n` blocks.
pub open spec fn acks_are_of(outputs: Seq<OutputView>, n: int) -> bool {
    forall|i: int|
        0 <= i < datagrams_in(outputs).len() && (packet_of(
            #[trigger] datagrams_in(outputs)[i],
        ) matches Ok(PacketView::Ack { .. })) ==> datagrams_in(outputs)[i] == ack_of(n)
}

/// The one datagram among outputs, if there is one output.
proof fn one_datagram(to: SocketAddr, packet: PacketView)
    ensures
        datagrams_in(seq![send_view(to, packet)]) == seq![packet_wire(packet)],
        datagrams_in(Seq::<OutputView>::empty()) == Seq::<Seq<u8>>::empty(),
{
    reveal_with_fuel(datagrams_in, 2);
    let outputs = seq![send_view(to, packet)];
    assert(outputs.drop_last() =~= Seq::<OutputView>::empty());
    assert(datagrams_in(outputs) =~= seq![packet_wire(packet)]);
}

/// A report of an error is no acknowledgement.
proof fn reports_are_no_acks()
    ensures
        !(packet_of(packet_wire(timed_out_report())) matches Ok(PacketView::Ack { .. })),
        !(packet_of(packet_wire(stranger_reply())) matches Ok(PacketView::Ack { .. })),
{
    reveal_strlit("timed out");
    reveal_strlit("unknown transfer id");
    packets_round_trip(timed_out_report());
    packets_round_trip(stranger_reply());
}

proof fn blocks_are_answered_with_what_was_taken(
    r: Reception,
    stream: Seq<u8>,
    i: int,
)
    requires
        r.faithful(stream),
        !r.inc.finished,
        r.inc.attempt == 0,
        0 <= i < blocks_of(stream, r.inc.blksize).len(),
        r.taken - 0x10000 < i < r.taken + 0x10000,
    ensures
        ({
            let data = blocks_of(stream, r.inc.blksize)[i];
            acks_are_of(
                r.inc.accept(number_after(1, i), data).1.outputs,
                r.after(blocks_of(stream, r.inc.blksize), i).taken as int,
            )
        }),
{
    let data = blocks_of(stream, r.inc.blksize)[i];
    near_numbers_differ(i, r.taken as int);
    number_of_next(r.taken as int);
    if i == r.taken {
        expected_block_is_answered(r.inc, data);
    } else {
        one_datagram(r.inc.peer, PacketView::Ack { block: r.inc.last_acked });
    }
}

/// An acknowledgement that the receiver sends is always of all blocks that it
/// has taken.
pub proof fn acks_say_what_was_taken(d: Delivery, file: Seq<u8>, event: Event)
    requires
        d.sound(file),
        d.possible(d.blocks(file), event),
        d.receiver_step(d.blocks(file), event) is Some,
    ensures
        ({
            let (_, step) = d.receiver_step(d.blocks(file), event)->0;
            let taken = d.receiver_after(d.blocks(file), event).reception.taken;
            acks_are_of(step.outputs, taken as int)
        }),
{
    let blocks = d.blocks(file);
    let r = d.reception;
    match event {
        Event::Block(i) => {
            packets_round_trip(PacketView::Data { block: number_after(1, i), data: blocks[i] });
            let fresh = Reception { inc: IncomingView { attempt: 0, ..r.inc }, ..r };
            let stream = encoded(d.out.window.sender.mode, file);
            blocks_are_answered_with_what_was_taken(fresh, stream, i);
        },
        Event::ReceiverTimeout => {
            reports_are_no_acks();
            one_datagram(r.inc.peer, PacketView::Ack { block: r.inc.last_acked });
            one_datagram(r.inc.peer, timed_out_report());
        },
        Event::ReceiverDatagram { src, bytes } => {
            reports_are_no_acks();
            one_datagram(src, stranger_reply());
        },
        _ => {},
    }
}

} // verus!
